//! What a submission leaves of a disc's snapshot, and what its approval applies.

use vstd::prelude::*;

use crate::error::{AppError, ErrorView, bad_request};
use crate::hex_case::{self, canonicalize_disc_snapshot_hex_fields};
use crate::json::{self, Json, JsonObject, JsonView, array_texts};
use crate::models::{DiscDetail, DiscStatus, DiscSubmission, RingEntryView, SubmissionType};
use crate::order;
use crate::services::changes::{self, apply_scalar_operation, apply_set_operation};
use crate::services::disc_service;
use crate::services::disc_snapshot;
use crate::services::ring_history::{self, apply_ring_codes_history};
use crate::text::{self, str_eq};

verus! {

// ── Resolving changes ──────────────────────────────────────────────────────

/// The fields that hold a set of texts.
pub open spec fn is_set_field(key: Seq<char>) -> bool {
    key == "regions"@ || key == "languages"@ || key == "serial"@ || key == "edition"@ || key
        == "barcode"@
}

/// What the change of one field leaves of it.
pub open spec fn field_after(es: Seq<(Seq<char>, JsonView)>, key: Seq<char>, node: JsonView) -> Result<
    JsonView,
    ErrorView,
> {
    if is_set_field(key) {
        let old_texts = json::list_texts(json::list_or_empty(json::field(JsonView::Obj(es), key)));
        match changes::set_change(old_texts, node) {
            Err(e) => Err(e),
            Ok(v) => Ok(disc_snapshot::text_values(v)),
        }
    } else if key == "ring_codes"@ {
        match ring_history::ring_history(json::field(JsonView::Obj(es), key), node) {
            Err(e) => Err(e),
            Ok(rs) => Ok(JsonView::Arr(rs)),
        }
    } else {
        changes::scalar_change(key, node)
    }
}

/// The fields of a snapshot after changes, one after the other.
pub open spec fn entries_after(
    es: Seq<(Seq<char>, JsonView)>,
    changes: Seq<(Seq<char>, JsonView)>,
) -> Result<Seq<(Seq<char>, JsonView)>, ErrorView>
    decreases changes.len(),
{
    if changes.len() == 0 {
        Ok(es)
    } else {
        match field_after(es, changes[0].0, changes[0].1) {
            Err(e) => Err(e),
            Ok(v) => entries_after(json::put(es, changes[0].0, v), changes.drop_first()),
        }
    }
}

/// A snapshot after changes, its hexadecimal fields in their case. Changes that are no
/// object change nothing.
pub open spec fn resolved(db: JsonView, changes: JsonView) -> Result<JsonView, ErrorView> {
    match (db, changes) {
        (JsonView::Obj(es), JsonView::Obj(cs)) => match entries_after(es, cs) {
            Err(e) => Err(e),
            Ok(v) => Ok(hex_case::cased_snapshot(JsonView::Obj(v))),
        },
        _ => Ok(hex_case::cased_snapshot(db)),
    }
}

/// The pressings of a snapshot have fields that can be set.
pub open spec fn snapshot_settable(db: JsonView) -> bool {
    ring_history::rings_ok(json::list_or_empty(json::field(db, "ring_codes"@)))
}

/// Changes can be applied to fields, one after the other: those of the pressings mean
/// pressings that can take them.
pub open spec fn entries_changeable(
    es: Seq<(Seq<char>, JsonView)>,
    changes: Seq<(Seq<char>, JsonView)>,
) -> bool
    decreases changes.len(),
{
    changes.len() > 0 ==> {
        &&& changes[0].0 == "ring_codes"@ ==> ring_history::rings_changeable(
            json::field(JsonView::Obj(es), "ring_codes"@),
            changes[0].1,
        )
        &&& field_after(es, changes[0].0, changes[0].1) matches Ok(v) ==> entries_changeable(
            json::put(es, changes[0].0, v),
            changes.drop_first(),
        )
    }
}

/// Changes can be applied to a snapshot.
pub open spec fn snapshot_ok(db: JsonView, changes: JsonView) -> bool {
    match (db, changes) {
        (JsonView::Obj(es), JsonView::Obj(cs)) => entries_changeable(es, cs),
        _ => true,
    }
}

fn field_is_set(key: &str) -> (r: bool)
    ensures
        r == is_set_field(key@),
{
    str_eq(key, "regions") || str_eq(key, "languages") || str_eq(key, "serial") || str_eq(
        key,
        "edition",
    ) || str_eq(key, "barcode")
}

fn change_field(o: &JsonObject, key: &str, node: &Json) -> (r: Result<Json, AppError>)
    requires
        key@ == "ring_codes"@ ==> ring_history::rings_changeable(
            json::field(JsonView::Obj(o@), "ring_codes"@),
            node@,
        ),
    ensures
        changes::json_result(r) == field_after(o@, key@, node@),
{
    if field_is_set(key) {
        let old_texts: Vec<String> = match o.get(key) {
            Some(Json::Array(l)) => array_texts(l),
            _ => Vec::new(),
        };
        assert(text::texts(old_texts@) =~= json::list_texts(json::list_or_empty(json::field(JsonView::Obj(o@), key@))));
        apply_set_operation(&old_texts, node)
    } else if str_eq(key, "ring_codes") {
        let none: Vec<Json> = Vec::new();
        let empty = Json::Array(none);
        assert(json::json_views(none@) =~= Seq::<JsonView>::empty());
        let old_value = match o.get(key) {
            Some(v) => v,
            None => &empty,
        };
        assert(json::list_or_empty(old_value@) == json::list_or_empty(json::field(JsonView::Obj(o@), key@)));
        apply_ring_codes_history(old_value, node)
    } else {
        apply_scalar_operation(key, node)
    }
}

/// Changing one field keeps the pressings such that their fields can be set.
proof fn lemma_field_after_keeps(
    es: Seq<(Seq<char>, JsonView)>,
    key: Seq<char>,
    node: JsonView,
    v: JsonView,
)
    requires
        snapshot_settable(JsonView::Obj(es)),
        field_after(es, key, node) == Ok::<JsonView, ErrorView>(v),
    ensures
        snapshot_settable(JsonView::Obj(json::put(es, key, v))),
{
    json::lemma_lookup_put(es, key, v, "ring_codes"@);
    reveal_strlit("ring_codes");
    reveal_strlit("regions");
    reveal_strlit("languages");
    reveal_strlit("serial");
    reveal_strlit("edition");
    reveal_strlit("barcode");
    assert("ring_codes"@.len() == 10 && "regions"@.len() == 7 && "languages"@.len() == 9
        && "serial"@.len() == 6 && "edition"@.len() == 7 && "barcode"@.len() == 7);
    ring_history::law_ring_history_keeps_rings(json::field(JsonView::Obj(es), "ring_codes"@), node);
}

proof fn lemma_settable_entries(
    es: Seq<(Seq<char>, JsonView)>,
    changes: Seq<(Seq<char>, JsonView)>,
)
    requires
        snapshot_settable(JsonView::Obj(es)),
    ensures
        entries_changeable(es, changes),
    decreases changes.len(),
{
    if changes.len() > 0 {
        let key = changes[0].0;
        let node = changes[0].1;
        ring_history::law_settable_rings_are_changeable(json::field(JsonView::Obj(es), "ring_codes"@), node);
        if let Ok(v) = field_after(es, key, node) {
            lemma_field_after_keeps(es, key, node, v);
            lemma_settable_entries(json::put(es, key, v), changes.drop_first());
        }
    }
}

/// Any changes can be applied to a snapshot whose pressings have fields that can be set.
pub proof fn law_settable_snapshots_are_changeable(db: JsonView, changes: JsonView)
    requires
        snapshot_settable(db),
    ensures
        snapshot_ok(db, changes),
{
    if let (JsonView::Obj(es), JsonView::Obj(cs)) = (db, changes) {
        lemma_settable_entries(es, cs);
    }
}

/// Resolve changes against the snapshot of a disc.
pub fn resolve_submission_snapshot(db_snapshot: &Json, changes: &Json) -> (r: Result<
    Json,
    AppError,
>)
    requires
        snapshot_ok(db_snapshot@, changes@),
    ensures
        changes::json_result(r) == resolved(db_snapshot@, changes@),
{
    let (db, change_obj) = match (db_snapshot, changes) {
        (Json::Object(d), Json::Object(c)) => (d, c),
        _ => {
            return Ok(canonicalize_disc_snapshot_hex_fields(db_snapshot));
        },
    };
    match change_fields(db.copy(), change_obj) {
        Err(e) => Err(e),
        Ok(o) => Ok(canonicalize_disc_snapshot_hex_fields(&Json::Object(o))),
    }
}

fn change_fields(db: JsonObject, change_obj: &JsonObject) -> (r: Result<JsonObject, AppError>)
    requires
        entries_changeable(db@, change_obj@),
    ensures
        match r {
            Ok(o) => entries_after(db@, change_obj@) == Ok::<
                Seq<(Seq<char>, JsonView)>,
                ErrorView,
            >(o@),
            Err(e) => entries_after(db@, change_obj@) == Err::<
                Seq<(Seq<char>, JsonView)>,
                ErrorView,
            >(e@),
        },
{
    let ghost start = db@;
    let mut o = db;
    let ghost cs = json::entry_views(change_obj.entries@);
    proof {
        json::lemma_entry_views(change_obj.entries@);
        assert(cs.skip(0) =~= cs);
    }
    for i in 0..change_obj.entries.len()
        invariant
            cs == json::entry_views(change_obj.entries@),
            cs == change_obj@,
            cs.len() == change_obj.entries@.len(),
            forall|k: int|
                0 <= k < change_obj.entries@.len() ==> #[trigger] cs[k] == (
                    (change_obj.entries@[k].0)@,
                    (change_obj.entries@[k].1)@,
                ),
            start == db@,
            entries_changeable(o@, cs.skip(i as int)),
            entries_after(o@, cs.skip(i as int)) == entries_after(start, cs),
    {
        let key = change_obj.entries[i].0.as_str();
        let node = &change_obj.entries[i].1;
        proof {
            let rest = cs.skip(i as int);
            assert(rest[0] == cs[i as int]);
            assert(rest.drop_first() =~= cs.skip(i + 1));
        }
        match change_field(&o, key, node) {
            Err(e) => {
                return Err(e);
            },
            Ok(v) => {
                o.insert(key, v);
            },
        }
    }
    Ok(o)
}

/// Resolve a submission against the snapshot of a disc.
pub fn resolve_submission_snapshot_for_submission(db_snapshot: &Json, sub: &DiscSubmission) -> (r:
    Result<Json, AppError>)
    requires
        snapshot_ok(db_snapshot@, sub.changes@),
    ensures
        changes::json_result(r) == resolved(db_snapshot@, sub.changes@),
{
    resolve_submission_snapshot(db_snapshot, &sub.changes)
}

// ── Laws of resolving ──────────────────────────────────────────────────────

proof fn lemma_unnamed(
    es: Seq<(Seq<char>, JsonView)>,
    changes: Seq<(Seq<char>, JsonView)>,
    key: Seq<char>,
)
    requires
        json::lookup(changes, key) is None,
    ensures
        entries_after(es, changes) matches Ok(v) ==> json::lookup(v, key) == json::lookup(es, key),
    decreases changes.len(),
{
    if changes.len() > 0 {
        if let Ok(v) = field_after(es, changes[0].0, changes[0].1) {
            json::lemma_lookup_put(es, changes[0].0, v, key);
            lemma_unnamed(json::put(es, changes[0].0, v), changes.drop_first(), key);
        }
    }
}

proof fn lemma_lookup_cased(es: Seq<(Seq<char>, JsonView)>, key: Seq<char>)
    ensures
        json::get(hex_case::cased_snapshot(JsonView::Obj(es)), key) == (match json::lookup(es, key) {
            Some(v) => Some(hex_case::cased_value(key, v)),
            None => None,
        }),
    decreases es.len(),
{
    let f = |e: (Seq<char>, JsonView)| (e.0, hex_case::cased_value(e.0, e.1));
    if es.len() > 0 {
        lemma_lookup_cased(es.drop_first(), key);
        assert(es.map_values(f).drop_first() =~= es.drop_first().map_values(f));
    }
}

/// A field that the changes do not name keeps its value, its hexadecimal digits in the
/// case of the field.
pub proof fn law_unnamed_fields_stay(db: JsonView, changes: JsonView, key: Seq<char>)
    requires
        json::get(changes, key) is None,
    ensures
        resolved(db, changes) matches Ok(v) ==> json::get(v, key) == (match json::get(db, key) {
            Some(x) => Some(hex_case::cased_value(key, x)),
            None => None,
        }),
{
    if let JsonView::Obj(es) = db {
        lemma_lookup_cased(es, key);
        if let JsonView::Obj(cs) = changes {
            lemma_unnamed(es, cs, key);
            if let Ok(v) = entries_after(es, cs) {
                lemma_lookup_cased(v, key);
            }
        }
    }
}

proof fn lemma_named(
    es: Seq<(Seq<char>, JsonView)>,
    changes: Seq<(Seq<char>, JsonView)>,
    key: Seq<char>,
)
    requires
        json::keys_ascend(changes),
        json::lookup(changes, key) is Some,
    ensures
        entries_after(es, changes) matches Ok(v) ==> Ok::<JsonView, ErrorView>(
            json::lookup(v, key)->0,
        ) == field_after(es, key, json::lookup(changes, key)->0) && json::lookup(v, key) is Some,
    decreases changes.len(),
{
    if changes.len() > 0 {
        if let Ok(v) = field_after(es, changes[0].0, changes[0].1) {
            let rest = changes.drop_first();
            let next = json::put(es, changes[0].0, v);
            assert(json::keys_ascend(rest)) by {
                assert forall|i: int, j: int| 0 <= i < j < rest.len() implies order::text_less(
                    #[trigger] rest[i].0,
                    #[trigger] rest[j].0,
                ) by {
                    assert(rest[i] == changes[i + 1] && rest[j] == changes[j + 1]);
                }
            }
            json::lemma_lookup_put(es, changes[0].0, v, key);
            if changes[0].0 == key {
                lemma_absent(rest, key);
                lemma_unnamed(next, rest, key);
            } else {
                lemma_named(next, rest, key);
            }
        }
    }
}

/// A key less than every key of an object is not in it.
proof fn lemma_absent(es: Seq<(Seq<char>, JsonView)>, key: Seq<char>)
    requires
        forall|i: int| 0 <= i < es.len() ==> order::text_less(key, #[trigger] es[i].0),
    ensures
        json::lookup(es, key) is None,
    decreases es.len(),
{
    if es.len() > 0 {
        order::lemma_text_less_irreflexive(key);
        assert(order::text_less(key, es[0].0));
        let rest = es.drop_first();
        assert forall|i: int| 0 <= i < rest.len() implies order::text_less(key, #[trigger] rest[i].0) by {
            assert(rest[i] == es[i + 1]);
        }
        lemma_absent(rest, key);
    }
}

/// Where resolving succeeds, a field that the changes name holds what its own change
/// makes of the stored value, whatever the other changes are. Its hexadecimal digits
/// are in the case of the field.
pub proof fn law_named_fields_change(
    es: Seq<(Seq<char>, JsonView)>,
    cs: Seq<(Seq<char>, JsonView)>,
    key: Seq<char>,
)
    requires
        json::keys_ascend(cs),
        json::lookup(cs, key) is Some,
    ensures
        resolved(JsonView::Obj(es), JsonView::Obj(cs)) matches Ok(v) ==> {
            &&& field_after(es, key, json::lookup(cs, key)->0) is Ok
            &&& json::get(v, key) == Some(
                hex_case::cased_value(key, field_after(es, key, json::lookup(cs, key)->0)->Ok_0),
            )
        },
{
    lemma_named(es, cs, key);
    if let Ok(v) = entries_after(es, cs) {
        lemma_lookup_cased(v, key);
    }
}

// ── What an approval applies ───────────────────────────────────────────────

/// The changes of an approval, and what they leave of the disc.
pub struct ApprovalResolution {
    pub changes: Json,
    pub effective_data: Json,
    pub target_status: Option<DiscStatus>,
}

/// The changes name a field.
pub open spec fn names_field(changes: JsonView, key: Seq<char>) -> bool {
    json::get(changes, key) is Some
}

/// Whether the changes name a field.
pub fn change_set_contains(changes: &Json, key: &str) -> (r: bool)
    ensures
        r == names_field(changes@, key@),
{
    match changes.get(key) {
        Some(_) => true,
        None => false,
    }
}

/// Changes with a change of the status among them.
pub open spec fn with_status(changes: JsonView, status: JsonView) -> Result<JsonView, ErrorView> {
    match changes {
        JsonView::Obj(cs) => Ok(JsonView::Obj(json::put(cs, "status"@, status))),
        _ => changes::refused("submission changes must be a JSON object"@),
    }
}

fn add_status(changes: Json, status: Json) -> (r: Result<Json, AppError>)
    ensures
        changes::json_result(r) == with_status(changes@, status@),
{
    match changes {
        Json::Object(o) => {
            let mut o = o;
            o.insert("status", status);
            Ok(Json::Object(o))
        },
        _ => Err(bad_request("submission changes must be a JSON object")),
    }
}

/// The reviewed changes of a disc submission with the submitted status, unless the
/// review gives one.
pub open spec fn status_preserved(
    submission_type: SubmissionType,
    submitted: JsonView,
    reviewed: JsonView,
) -> Result<JsonView, ErrorView> {
    if submission_type != SubmissionType::Disc || names_field(reviewed, "status"@) {
        Ok(reviewed)
    } else {
        match json::get(submitted, "status"@) {
            None => Ok(reviewed),
            Some(s) => with_status(reviewed, s),
        }
    }
}

/// Keep the status that the submitter gave where the moderator gave none.
pub fn preserve_submitted_status_change(
    submission_type: SubmissionType,
    submitted_changes: &Json,
    reviewed_changes: &Json,
) -> (r: Result<Json, AppError>)
    ensures
        changes::json_result(r) == status_preserved(submission_type, submitted_changes@, reviewed_changes@),
{
    let is_disc = matches!(submission_type, SubmissionType::Disc);
    if !is_disc || change_set_contains(reviewed_changes, "status") {
        return Ok(reviewed_changes.copy());
    }
    match submitted_changes.get("status") {
        None => Ok(reviewed_changes.copy()),
        Some(s) => add_status(reviewed_changes.copy(), s.copy()),
    }
}

/// An object with one entry.
pub open spec fn single(key: Seq<char>, v: JsonView) -> JsonView {
    JsonView::Obj(json::put(Seq::empty(), key, v))
}

/// The change of status that comes with approving a disc: a new disc is unverified; a
/// disc that was unverified or questionable is verified.
pub open spec fn automatic_status(target: Option<DiscStatus>) -> Option<JsonView> {
    match target {
        None => Some(single("add"@, single("new"@, JsonView::Str("Unverified"@)))),
        Some(DiscStatus::Unverified) | Some(DiscStatus::Questionable) => Some(
            single(
                "modify"@,
                JsonView::Obj(
                    json::put(
                        json::put(Seq::empty(), "old"@, JsonView::Str(target->0.name())),
                        "new"@,
                        JsonView::Str("Verified"@),
                    ),
                ),
            ),
        ),
        _ => None,
    }
}

/// The view of an optional value.
pub open spec fn opt_json(v: Option<Json>) -> Option<JsonView> {
    match v {
        Some(j) => Some(j@),
        None => None,
    }
}

fn single_entry(key: &str, v: Json) -> (r: Json)
    ensures
        r@ == single(key@, v@),
{
    let mut o = JsonObject::new();
    o.insert(key, v);
    Json::Object(o)
}

/// The change of status that comes with approving a disc.
pub fn automatic_disc_status_change(target_status: Option<DiscStatus>) -> (r: Option<Json>)
    ensures
        opt_json(r) == automatic_status(target_status),
{
    match target_status {
        None => Some(single_entry("add", single_entry("new", Json::text("Unverified")))),
        Some(status) => match status {
            DiscStatus::Unverified | DiscStatus::Questionable => {
                let mut o = JsonObject::new();
                o.insert("old", Json::text(status.as_str()));
                o.insert("new", Json::text("Verified"));
                Some(single_entry("modify", Json::Object(o)))
            },
            _ => None,
        },
    }
}

/// The changes that an approval applies.
pub open spec fn approved_changes(
    submission_type: SubmissionType,
    target: Option<DiscStatus>,
    changes: JsonView,
) -> Result<JsonView, ErrorView> {
    if submission_type == SubmissionType::Disc && !names_field(changes, "status"@) {
        match automatic_status(target) {
            Some(s) => with_status(changes, s),
            None => Ok(changes),
        }
    } else {
        Ok(changes)
    }
}

/// The changes of an approval and the snapshot they leave.
pub open spec fn approval(
    submission_type: SubmissionType,
    target: Option<DiscStatus>,
    db: JsonView,
    changes: JsonView,
) -> Result<(JsonView, JsonView), ErrorView> {
    match approved_changes(submission_type, target, changes) {
        Err(e) => Err(e),
        Ok(c) => match resolved(db, c) {
            Err(e) => Err(e),
            Ok(v) => Ok((c, v)),
        },
    }
}

/// What approving changes applies can be applied to a snapshot.
pub open spec fn approvable(
    submission_type: SubmissionType,
    target: Option<DiscStatus>,
    db: JsonView,
    changes: JsonView,
) -> bool {
    approved_changes(submission_type, target, changes) matches Ok(c) ==> snapshot_ok(db, c)
}

/// What approving changes would apply and leave.
pub fn resolve_approval_from_snapshot(
    submission_type: SubmissionType,
    target_status: Option<DiscStatus>,
    db_snapshot: &Json,
    changes: &Json,
) -> (r: Result<ApprovalResolution, AppError>)
    requires
        approvable(submission_type, target_status, db_snapshot@, changes@),
    ensures
        match r {
            Ok(a) => approval(submission_type, target_status, db_snapshot@, changes@) == Ok::<
                (JsonView, JsonView),
                ErrorView,
            >((a.changes@, a.effective_data@)) && a.target_status == target_status,
            Err(e) => approval(submission_type, target_status, db_snapshot@, changes@) == Err::<
                (JsonView, JsonView),
                ErrorView,
            >(e@),
        },
{
    let is_disc = matches!(submission_type, SubmissionType::Disc);
    let mut approved = changes.copy();
    if is_disc && !change_set_contains(changes, "status") {
        if let Some(status) = automatic_disc_status_change(target_status) {
            match add_status(approved, status) {
                Err(e) => {
                    return Err(e);
                },
                Ok(v) => {
                    approved = v;
                },
            }
        }
    }
    match resolve_submission_snapshot(db_snapshot, &approved) {
        Err(e) => Err(e),
        Ok(v) => Ok(
            ApprovalResolution { changes: approved, effective_data: v, target_status },
        ),
    }
}

/// The snapshot that an approval starts from: that of the target, or an empty one.
pub fn resolve_approval(
    submission_type: SubmissionType,
    target: Option<(Json, DiscStatus)>,
    changes: &Json,
) -> (r: Result<ApprovalResolution, AppError>)
    requires
        target matches Some(t) ==> approvable(submission_type, Some(t.1), (t.0)@, changes@),
    ensures
        ({
            let db = match target {
                Some(t) => (t.0)@,
                None => JsonView::Obj(Seq::empty()),
            };
            let status = match target {
                Some(t) => Some(t.1),
                None => None,
            };
            match r {
                Ok(a) => approval(submission_type, status, db, changes@) == Ok::<
                    (JsonView, JsonView),
                    ErrorView,
                >((a.changes@, a.effective_data@)) && a.target_status == status,
                Err(e) => approval(submission_type, status, db, changes@) == Err::<
                    (JsonView, JsonView),
                    ErrorView,
                >(e@),
            }
        }),
{
    match target {
        Some(t) => resolve_approval_from_snapshot(submission_type, Some(t.1), &t.0, changes),
        None => {
            let empty = Json::object();
            proof {
                assert(json::lookup(Seq::empty(), "ring_codes"@) is None);
                if let Ok(c) = approved_changes(submission_type, None, changes@) {
                    law_settable_snapshots_are_changeable(empty@, c);
                }
            }
            resolve_approval_from_snapshot(submission_type, None, &empty, changes)
        },
    }
}

/// An edit never changes the status by itself.
pub proof fn law_edits_keep_their_changes(target: Option<DiscStatus>, changes: JsonView)
    ensures
        approved_changes(SubmissionType::Edit, target, changes) == Ok::<JsonView, ErrorView>(
            changes,
        ),
{
}

/// A disc submission that names a status is applied as it is.
pub proof fn law_named_status_is_kept(target: Option<DiscStatus>, changes: JsonView)
    requires
        names_field(changes, "status"@),
    ensures
        approved_changes(SubmissionType::Disc, target, changes) == Ok::<JsonView, ErrorView>(
            changes,
        ),
{
}

/// What is stored of a disc can be changed in any way: every pressing in its snapshot has
/// fields that can be set.
pub proof fn law_snapshots_can_be_changed(d: DiscDetail, changes: JsonView)
    ensures
        snapshot_settable(disc_snapshot::snapshot(d)),
        snapshot_ok(disc_snapshot::snapshot(d), changes),
{
    let x = d.disc;
    let ext = x.media_type.rom_extension@;
    let layers = (x.media_type.layer_count + 1) as nat;
    let rings = disc_snapshot::ring_values(d.ring_entries@, layers);
    let o = disc_snapshot::with_data_entries(disc_snapshot::with_release_entries(disc_snapshot::name_entries(x), x), x);
    let o = json::put(o, "cuesheet"@, disc_snapshot::cue_value(x.cue, ext));
    let o = json::put(o, "status"@, JsonView::Str(x.status.name()));
    let o = json::put(o, "regions"@, disc_snapshot::text_values(disc_snapshot::region_codes(d.regions@)));
    let o = json::put(o, "languages"@, disc_snapshot::text_values(disc_snapshot::language_codes(d.languages@)));
    let with_rings = json::put(o, "ring_codes"@, JsonView::Arr(rings));
    let ranges = JsonView::Arr(disc_snapshot::range_values(d.sector_ranges@));
    let with_ranges = json::put(with_rings, "sector_ranges"@, ranges);
    reveal_strlit("ring_codes");
    reveal_strlit("sector_ranges");
    reveal_strlit("dat");
    assert("ring_codes"@.len() != "sector_ranges"@.len());
    assert("ring_codes"@.len() != "dat"@.len());
    json::lemma_lookup_put(o, "ring_codes"@, JsonView::Arr(rings), "ring_codes"@);
    json::lemma_lookup_put(with_rings, "sector_ranges"@, ranges, "ring_codes"@);
    json::lemma_lookup_put(with_ranges, "dat"@, disc_snapshot::dat_value(d.files@, ext), "ring_codes"@);
    assert(json::field(disc_snapshot::snapshot(d), "ring_codes"@) == JsonView::Arr(rings));
    assert forall|i: int| 0 <= i < rings.len() implies ring_history::ring_ok(#[trigger] rings[i]) by {
        let e = order::arranged(d.ring_entries@, order::stable_order(disc_service::stored_ring_keys(d.ring_entries@, layers)))[i];
        assert(rings[i] == disc_snapshot::ring_value(e, layers));
        lemma_ring_layers(e, layers);
    }
    law_settable_snapshots_are_changeable(disc_snapshot::snapshot(d), changes);
}

proof fn lemma_ring_layers(e: RingEntryView, layers: nat)
    ensures
        ring_history::ring_ok(disc_snapshot::ring_value(e, layers)),
{
    let o = Seq::<(Seq<char>, JsonView)>::empty();
    let o = json::put(o, "id"@, JsonView::Int(e.id as int));
    let o = json::put(o, "offset_value"@, JsonView::Str(disc_service::number_or_empty(e.offset_value)));
    let o = json::put(o, "offset_extra_value"@, JsonView::Str(disc_service::number_or_empty(e.offset_extra_value)));
    let o = json::put(o, "sample_start"@, JsonView::Str(disc_service::number_or_empty(e.sample_data_start)));
    let o = json::put(o, "comment"@, JsonView::Str(disc_service::text_or(e.comment)));
    let ls = JsonView::Arr(disc_snapshot::layer_values(e.layers@, layers));
    json::lemma_lookup_put(o, "layers"@, ls, "layers"@);
    assert(json::field(disc_snapshot::ring_value(e, layers), "layers"@) == ls);
}

} // verus!
