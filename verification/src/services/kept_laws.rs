//! What is kept of what is entered: lists, layers, registrations, names.

use vstd::prelude::*;

use crate::error::ErrorView;
use crate::json::{self, JsonView};
use crate::models::{self, DiscDetail, System};
use crate::services::changes;
use crate::services::disc_service;
use crate::services::disc_snapshot;
use crate::services::disc_update;
use crate::services::queue_sql::{self, ColumnView};
use crate::services::snapshot_hash;
use crate::services::snapshot_update;
use crate::services::user_service;
use crate::text;

verus! {

// ── Lists ──────────────────────────────────────────────────────────────────

proof fn lemma_no_comma(x: Seq<char>, i: int)
    requires
        !x.contains(','),
        0 <= i <= x.len(),
    ensures
        text::index_from(x, ',', i) == x.len(),
    decreases x.len() - i,
{
    if i < x.len() {
        assert(x[i] != ',') by {
            if x[i] == ',' {
                assert(x.contains(','));
            }
        }
        lemma_no_comma(x, i + 1);
    }
}

proof fn lemma_one_part(x: Seq<char>)
    requires
        !x.contains(','),
    ensures
        text::split(x, ',') == seq![x],
{
    lemma_no_comma(x, 0);
    text::lemma_index_from(x, ',', 0);
}

proof fn lemma_one_item(x: Seq<char>)
    requires
        text::trim(x).len() > 0,
    ensures
        disc_service::filled_parts(seq![x]) == seq![text::trim(x)],
{
    let s = seq![x];
    assert(s.drop_last() =~= Seq::<Seq<char>>::empty());
    assert(disc_service::filled_parts(s.drop_last()) =~= Seq::<Seq<char>>::empty());
    assert(s.last() == x);
    assert(Seq::<Seq<char>>::empty().push(text::trim(x)) =~= seq![text::trim(x)]);
}

/// A list is read from a comma-separated text as from a list of texts: a text without commas
/// is a list of one, and a blank one of none; a value that is neither has no items.
pub proof fn law_lists_are_read_either_way(x: Seq<char>, b: bool, n: int)
    requires
        !x.contains(','),
    ensures
        disc_service::text_array(JsonView::Str(x)) == disc_service::text_array(JsonView::Arr(seq![JsonView::Str(x)])),
        text::trim(x).len() > 0 ==> disc_service::text_array(JsonView::Str(x)) == seq![text::trim(x)],
        text::trim(x).len() == 0 ==> disc_service::text_array(JsonView::Str(x)).len() == 0,
        disc_service::text_array(JsonView::Null).len() == 0,
        disc_service::text_array(JsonView::Bool(b)).len() == 0,
        disc_service::text_array(JsonView::Int(n)).len() == 0,
{
    lemma_one_part(x);
    let list = seq![JsonView::Str(x)];
    assert(list.drop_last() =~= Seq::<JsonView>::empty());
    reveal_with_fuel(json::list_texts, 2);
    assert(json::list_texts(list) =~= seq![x]);
    reveal_with_fuel(disc_service::filled_parts, 2);
    if text::trim(x).len() > 0 {
        lemma_one_item(x);
    } else {
        let s = seq![x];
        assert(s.drop_last() =~= Seq::<Seq<char>>::empty());
        assert(s.last() == x);
    }
}

/// Texts that are added to others stand behind them; each is there, up to the case of its
/// letters, and none is there twice.
pub proof fn law_texts_are_added_once(v: Seq<Seq<char>>, more: Seq<Seq<char>>, i: int)
    requires
        0 <= i < more.len(),
    ensures
        changes::with_new_ignoring_case(v, more).len() >= v.len(),
        changes::with_new_ignoring_case(v, more).take(v.len() as int) == v,
        changes::has_ignoring_case(changes::with_new_ignoring_case(v, more), more[i]),
        changes::has_ignoring_case(v, more[i]) && more.len() == 1 ==> changes::with_new_ignoring_case(v, more) == v,
        forall|j: int, k: int|
            0 <= j < k && v.len() <= k < changes::with_new_ignoring_case(v, more).len()
                ==> !models::same_ignoring_case(
                #[trigger] changes::with_new_ignoring_case(v, more)[j],
                #[trigger] changes::with_new_ignoring_case(v, more)[k],
            ),
    decreases more.len(),
{
    lemma_added_once(v, more, i);
    if more.len() == 1 {
        assert(more.drop_last().len() == 0);
        assert(changes::with_new_ignoring_case(v, more.drop_last()) == v);
        assert(more[i] == more.last());
    }
}

proof fn lemma_added_once(v: Seq<Seq<char>>, more: Seq<Seq<char>>, i: int)
    requires
        -1 <= i < more.len(),
    ensures
        changes::with_new_ignoring_case(v, more).len() >= v.len(),
        changes::with_new_ignoring_case(v, more).take(v.len() as int) == v,
        i >= 0 ==> changes::has_ignoring_case(changes::with_new_ignoring_case(v, more), more[i]),
        forall|j: int, k: int|
            0 <= j < k && v.len() <= k < changes::with_new_ignoring_case(v, more).len()
                ==> !models::same_ignoring_case(
                #[trigger] changes::with_new_ignoring_case(v, more)[j],
                #[trigger] changes::with_new_ignoring_case(v, more)[k],
            ),
    decreases more.len(),
{
    let all = changes::with_new_ignoring_case(v, more);
    if more.len() == 0 {
        assert(v.take(v.len() as int) =~= v);
    } else {
        let front = more.drop_last();
        let x = more.last();
        let before = changes::with_new_ignoring_case(v, front);
        lemma_added_once(
            v,
            front,
            if i < front.len() {
                i
            } else {
                -1
            },
        );
        assert(all.take(v.len() as int) =~= before.take(v.len() as int));
        if 0 <= i < front.len() {
            assert(front[i] == more[i]);
            let k = choose|k: int|
                0 <= k < before.len() && models::same_ignoring_case(#[trigger] before[k], more[i]);
            assert(all[k] == before[k]);
        } else if i >= 0 {
            assert(more[i] == x);
            if !changes::has_ignoring_case(before, x) {
                assert(models::same_ignoring_case(all[before.len() as int], x));
            }
        }
        assert forall|j: int, k: int|
            0 <= j < k && v.len() <= k < all.len() implies !models::same_ignoring_case(
            #[trigger] all[j],
            #[trigger] all[k],
        ) by {
            assert(all[j] == before[j]);
            if k < before.len() {
                assert(all[k] == before[k]);
            } else {
                assert(all[k] == x);
                assert(!changes::has_ignoring_case(before, x));
            }
        }
    }
}

// ── Layers ─────────────────────────────────────────────────────────────────

/// Every layer that says anything is stored, under its own number, and none that says nothing.
pub proof fn law_layers_that_say_something_are_stored(list: Seq<JsonView>, i: int, k: int)
    requires
        0 <= i < list.len(),
    ensures
        ({
            let r = disc_update::layer_row(list[i], i as nat);
            r.mastering_code is Some || r.mastering_sid is Some || r.mould_sids.len() > 0
                || r.toolstamps.len() > 0 || r.additional_moulds.len() > 0 ==> disc_update::layer_rows(
                list,
            ).contains(r)
        }),
        0 <= k < disc_update::layer_rows(list).len() ==> ({
            let r = disc_update::layer_rows(list)[k];
            r.mastering_code is Some || r.mastering_sid is Some || r.mould_sids.len() > 0
                || r.toolstamps.len() > 0 || r.additional_moulds.len() > 0
        }),
    decreases list.len(),
{
    lemma_rows_say_something(list, k);
    let front = list.drop_last();
    let before = disc_update::layer_rows(front);
    let all = disc_update::layer_rows(list);
    let r = disc_update::layer_row(list[i], i as nat);
    if i < front.len() {
        assert(front[i] == list[i]);
        law_layers_that_say_something_are_stored(front, i, k);
        if before.contains(r) {
            let n = choose|n: int| 0 <= n < before.len() && before[n] == r;
            assert(all[n] == r);
        }
    } else {
        assert(list[i] == list.last());
        if disc_update::row_has_data(r) {
            assert(all[before.len() as int] == r);
        }
    }
}

proof fn lemma_rows_say_something(list: Seq<JsonView>, k: int)
    ensures
        0 <= k < disc_update::layer_rows(list).len() ==> disc_update::row_has_data(disc_update::layer_rows(list)[k]),
    decreases list.len(),
{
    if list.len() > 0 {
        lemma_rows_say_something(list.drop_last(), k);
    }
}

// ── Other fields ───────────────────────────────────────────────────────────

/// Layer breaks that are numbers of 32 bits are stored as they are, in their order.
pub proof fn law_layer_breaks_are_stored(v: Seq<i32>)
    ensures
        v.len() > 0 ==> disc_update::layerbreaks_field(disc_snapshot::int_values(v)) == Some(v),
        v.len() == 0 ==> disc_update::layerbreaks_field(disc_snapshot::int_values(v)) is None,
{
    lemma_stored_numbers(v);
}

proof fn lemma_stored_numbers(v: Seq<i32>)
    ensures
        disc_update::list_numbers(v.map_values(|n: i32| JsonView::Int(n as int))) == v,
    decreases v.len(),
{
    let list = v.map_values(|n: i32| JsonView::Int(n as int));
    if v.len() > 0 {
        lemma_stored_numbers(v.drop_last());
        assert(list.drop_last() =~= v.drop_last().map_values(|n: i32| JsonView::Int(n as int)));
        assert(list.last() == JsonView::Int(v.last() as int));
        assert(v.drop_last().push(v.last()) =~= v);
    } else {
        assert(disc_update::list_numbers(list) =~= v);
    }
}

/// A list of ranges replaces the stored ones, an empty one clears them, and a field that is
/// not entered leaves them.
pub proof fn law_ranges_are_replaced_or_kept(list: Seq<JsonView>)
    ensures
        list.len() > 0 ==> disc_update::sector_ranges_field(JsonView::Arr(list)) is Replace,
        list.len() == 0 ==> disc_update::sector_ranges_field(JsonView::Arr(list)) is Clear,
        disc_update::sector_ranges_field(JsonView::Null) is Keep,
{
}

/// What a stored disc may lack can be removed from it.
pub proof fn law_what_a_disc_may_lack(d: DiscDetail, key: Seq<char>)
    requires
        key == "title_foreign"@ || key == "disc_number"@ || key == "disc_title"@ || key
            == "filename_suffix"@ || key == "version"@ || key == "error_count"@ || key == "exe_date"@
            || key == "comments"@ || key == "contents"@ || key == "protection"@ || key == "sbi"@
            || key == "disc_id"@ || key == "disc_key"@ || key == "universal_hash"@ || key == "pvd"@
            || key == "header"@ || key == "bca"@ || key == "pic"@ || key == "cuesheet"@ || key
            == "dat"@,
    ensures
        changes::nullable(key),
        ({
            let x = d.disc;
            x.title_foreign is None && x.disc_number is None && x.disc_title is None
                && x.filename_suffix is None && x.version is None && x.error_count is None
                && x.exe_date is None && x.comments is None && x.contents is None && x.protection
                is None && x.sbi is None && x.disc_id is None && x.disc_key is None
                && x.universal_hash is None && x.pvd is None && x.header is None && x.bca is None
                && x.pic is None && x.cue is None && d.files@.len() == 0 ==> json::field(disc_snapshot::snapshot(d), key)
                == JsonView::Null
        }),
{
    snapshot_update::lemma_snapshot_fields(d);
    if d.files@.len() == 0 {
        let ext = d.disc.media_type.rom_extension@;
        assert(disc_snapshot::rom_lines(d.files@, disc_snapshot::track_count(d.files@), ext) =~= Seq::<Seq<char>>::empty());
        assert(disc_snapshot::track_list(d.files@, ext).len() == 0);
    }
}

/// A review is out of date exactly if it was begun on a fingerprint that is not the current
/// one, whatever space stands around it; one that names none is not.
pub proof fn law_when_a_review_is_out_of_date(begun: Seq<char>, current: Seq<char>)
    ensures
        text::trim(begun) == current ==> !snapshot_hash::is_stale(Some(begun), current),
        text::trim(begun) != current ==> snapshot_hash::is_stale(Some(begun), current),
        !snapshot_hash::is_stale(None, current),
{
}

// ── Registrations ──────────────────────────────────────────────────────────

/// A name of three to sixty-four bytes with a password of eight or more can be registered,
/// and no other.
pub proof fn law_who_can_register(username: Seq<char>, password: Seq<char>)
    ensures
        user_service::registration_refusal(username, password) is None <==> 3 <= vstd::utf8::encode_utf8(
            username,
        ).len() <= 64 && vstd::utf8::encode_utf8(password).len() >= 8,
        user_service::registration_refusal(username, password) is Some && 3 <= vstd::utf8::encode_utf8(
            username,
        ).len() <= 64 ==> user_service::registration_refusal(username, password) == Some(
            ErrorView::BadRequest("Password must be at least 8 characters"@),
        ),
{
}

// ── Names of systems, cuesheets ────────────────────────────────────────────

/// The full name of a system ends with its name and begins with its manufacturer.
pub proof fn law_full_names(s: System)
    ensures
        text::ends_with(s.full_name(), s.name@),
        text::starts_with(s.full_name(), s.manufacturer@),
        s.manufacturer@.len() == 0 ==> s.full_name() == s.name@,
        s.manufacturer@.len() > 0 ==> s.full_name().len() == s.manufacturer@.len() + 1
            + s.name@.len(),
{
    reveal_strlit(" ");
    let f = s.full_name();
    let n = s.name@;
    let m = s.manufacturer@;
    assert(f.skip(f.len() - n.len()) =~= n);
    assert(f.take(m.len() as int) =~= m);
}

/// A disc has a cuesheet exactly if its image is that of a CD and its medium is one of its
/// system's, whatever the case of the letters.
pub proof fn law_which_discs_have_cuesheets(media: Seq<String>, i: int, code: Seq<char>, ext: Seq<char>)
    ensures
        text::lower_text(ext) != "bin"@ ==> !models::cue_is_active(media, code, ext),
        (forall|k: int| 0 <= k < media.len() ==> text::lower_text(#[trigger] media[k]@) != text::lower_text(code))
            ==> !models::cue_is_active(media, code, ext),
        0 <= i < media.len() && text::lower_text(media[i]@) == text::lower_text(code) && text::lower_text(ext)
            == "bin"@ ==> models::cue_is_active(media, code, ext),
{
    reveal_strlit("bin");
    assert(text::lower_text("bin"@) =~= "bin"@);
}

// ── Queries ────────────────────────────────────────────────────────────────

/// New discs are the open submissions without a target, verifications those with one; edits
/// are told by their type. Another filter is none.
pub proof fn law_filters_by_type(f: Seq<char>)
    ensures
        queue_sql::type_condition(Some("Edit"@)) == Some("ds.submission_type = 'Edit'"@),
        queue_sql::type_condition(Some("New Disc"@)) matches Some(c) && text::starts_with(
            c,
            "ds.submission_type = 'Disc' AND "@,
        ) && text::ends_with(c, " AND ds.target_disc_id IS NULL"@),
        queue_sql::type_condition(Some("Verification"@)) matches Some(c) && text::starts_with(
            c,
            "ds.submission_type = 'Disc' AND "@,
        ) && text::ends_with(c, " OR ds.target_disc_id IS NOT NULL)"@),
        f != "Edit"@ && f != "New Disc"@ && f != "Verification"@ ==> queue_sql::type_condition(Some(f)) is None,
        queue_sql::type_condition(None) is None,
{
    reveal_strlit("Edit");
    reveal_strlit("New Disc");
    reveal_strlit("Verification");
    assert("Edit"@.len() == 4 && "New Disc"@.len() == 8 && "Verification"@.len() == 12);
    lemma_new_discs();
    lemma_verifications();
}

proof fn lemma_ends(a: Seq<char>, b: Seq<char>, c: Seq<char>)
    ensures
        text::ends_with(a + b + c, c),
        text::starts_with(a + b + c, a),
{
    let s = a + b + c;
    assert(s.skip(s.len() - c.len()) =~= c);
    assert(s.take(a.len() as int) =~= a);
}

proof fn lemma_new_discs()
    ensures
        ({
            let c = "ds.submission_type = 'Disc' AND "@
                + crate::services::queue_sql::UNPROCESSED_SUBMISSION_SQL@
                + " AND ds.target_disc_id IS NULL"@;
            text::starts_with(c, "ds.submission_type = 'Disc' AND "@) && text::ends_with(
                c,
                " AND ds.target_disc_id IS NULL"@,
            )
        }),
{
    lemma_ends(
        "ds.submission_type = 'Disc' AND "@,
        crate::services::queue_sql::UNPROCESSED_SUBMISSION_SQL@,
        " AND ds.target_disc_id IS NULL"@,
    );
}

proof fn lemma_verifications()
    ensures
        ({
            let c = "ds.submission_type = 'Disc' AND (NOT ("@
                + crate::services::queue_sql::UNPROCESSED_SUBMISSION_SQL@
                + ") OR ds.target_disc_id IS NOT NULL)"@;
            text::starts_with(c, "ds.submission_type = 'Disc' AND "@) && text::ends_with(
                c,
                " OR ds.target_disc_id IS NOT NULL)"@,
            )
        }),
{
    let a = "ds.submission_type = 'Disc' AND (NOT ("@;
    let u = crate::services::queue_sql::UNPROCESSED_SUBMISSION_SQL@;
    let z = ") OR ds.target_disc_id IS NOT NULL)"@;
    let c = a + u + z;
    lemma_ends(a, u, z);
    reveal_strlit("ds.submission_type = 'Disc' AND (NOT (");
    reveal_strlit("ds.submission_type = 'Disc' AND ");
    reveal_strlit(") OR ds.target_disc_id IS NOT NULL)");
    reveal_strlit(" OR ds.target_disc_id IS NOT NULL)");
    let p = "ds.submission_type = 'Disc' AND "@;
    let q = " OR ds.target_disc_id IS NOT NULL)"@;
    assert(a.take(p.len() as int) =~= p);
    assert(z.skip(1) =~= q);
    assert(c.take(p.len() as int) =~= a.take(p.len() as int));
    assert(c.skip(c.len() - q.len()) =~= z.skip(1));
}

/// A list is sorted by the column that its head names; one that is not known by the time.
pub proof fn law_columns_are_sorted_by(other: Seq<char>)
    ensures
        queue_sql::sort_column_sql(ColumnView::Submitter) == "LOWER(u.username)"@,
        queue_sql::sort_column_sql(ColumnView::Reviewer) == "LOWER(COALESCE(ur.username, ''))"@,
        queue_sql::sort_column_sql(ColumnView::DiscId) == "ds.target_disc_id"@,
        queue_sql::sort_column_sql(ColumnView::Status) == "ds.status"@,
        queue_sql::sort_column_sql(ColumnView::Date) == "ds.created_at"@,
        queue_sql::sort_column_sql(ColumnView::Other(other)) == queue_sql::sort_column_sql(ColumnView::Date),
{
}

} // verus!
