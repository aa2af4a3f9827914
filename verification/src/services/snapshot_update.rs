//! What the snapshot of a disc writes when it is stored again.

use vstd::prelude::*;

use crate::error::ErrorView;
use crate::json::{self, JsonView};
use crate::models::{DiscDetail, DiscRingCodeLayer, File, ProtectionRange, RingEntryView};
use crate::naming;
use crate::numbers;
use crate::order;
use crate::services::disc_service;
use crate::services::disc_snapshot;
use crate::services::disc_update::{self, FileView, LayerView, RingView, SectorRangeView};
use crate::services::dump_text;
use crate::services::hex_dump;
use crate::services::validation;
use crate::text;

verus! {

// ── The fields of a snapshot ───────────────────────────────────────────────

/// A number that tells the names of a snapshot's fields apart.
spec fn name_code(name: Seq<char>) -> int {
    name.len() + 2 * (name[0] as int) + 9 * (name[2] as int)
}

proof fn lemma_name_codes()
    ensures
        name_code("system_code"@) == 1276,
        name_code("media_type"@) == 1128,
        name_code("title"@) == 1281,
        name_code("category"@) == 1250,
        name_code("title_foreign"@) == 1289,
        name_code("disc_number"@) == 1246,
        name_code("disc_title"@) == 1245,
        name_code("filename_suffix"@) == 1191,
        name_code("serial"@) == 1262,
        name_code("version"@) == 1269,
        name_code("edition"@) == 1154,
        name_code("barcode"@) == 1229,
        name_code("comments"@) == 1187,
        name_code("contents"@) == 1196,
        name_code("error_count"@) == 1239,
        name_code("exe_date"@) == 1119,
        name_code("edc"@) == 1096,
        name_code("layerbreaks"@) == 1316,
        name_code("pvd"@) == 1127,
        name_code("pic"@) == 1118,
        name_code("bca"@) == 1072,
        name_code("header"@) == 1087,
        name_code("protection"@) == 1233,
        name_code("sbi"@) == 1178,
        name_code("disc_id"@) == 1242,
        name_code("disc_key"@) == 1243,
        name_code("universal_hash"@) == 1193,
        name_code("cuesheet"@) == 1115,
        name_code("status"@) == 1109,
        name_code("regions"@) == 1162,
        name_code("languages"@) == 1215,
        name_code("ring_codes"@) == 1228,
        name_code("sector_ranges"@) == 1134,
        name_code("dat"@) == 1247,
{
    reveal_strlit("system_code");
    reveal_strlit("media_type");
    reveal_strlit("title");
    reveal_strlit("category");
    reveal_strlit("title_foreign");
    reveal_strlit("disc_number");
    reveal_strlit("disc_title");
    reveal_strlit("filename_suffix");
    reveal_strlit("serial");
    reveal_strlit("version");
    reveal_strlit("edition");
    reveal_strlit("barcode");
    reveal_strlit("comments");
    reveal_strlit("contents");
    reveal_strlit("error_count");
    reveal_strlit("exe_date");
    reveal_strlit("edc");
    reveal_strlit("layerbreaks");
    reveal_strlit("pvd");
    reveal_strlit("pic");
    reveal_strlit("bca");
    reveal_strlit("header");
    reveal_strlit("protection");
    reveal_strlit("sbi");
    reveal_strlit("disc_id");
    reveal_strlit("disc_key");
    reveal_strlit("universal_hash");
    reveal_strlit("cuesheet");
    reveal_strlit("status");
    reveal_strlit("regions");
    reveal_strlit("languages");
    reveal_strlit("ring_codes");
    reveal_strlit("sector_ranges");
    reveal_strlit("dat");
}

proof fn lemma_put(es: Seq<(Seq<char>, JsonView)>, name: Seq<char>, value: JsonView)
    ensures
        json::lookup(json::put(es, name, value), name) == Some(value),
        forall|other: Seq<char>|
            other != name ==> #[trigger] json::lookup(json::put(es, name, value), other) == json::lookup(
                es,
                other,
            ),
{
    json::lemma_lookup_put(es, name, value, name);
    assert forall|other: Seq<char>| other != name implies #[trigger] json::lookup(
        json::put(es, name, value),
        other,
    ) == json::lookup(es, other) by {
        json::lemma_lookup_put(es, name, value, other);
    }
}

proof fn lemma_name_fields(d: DiscDetail)
    ensures
        ({
            let x = d.disc;
            let r = disc_snapshot::name_entries(x);
            &&& json::lookup(r, "system_code"@) == Some(JsonView::Str(x.system_code@))
            &&& json::lookup(r, "media_type"@) == Some(JsonView::Str(x.media_type.code@))
            &&& json::lookup(r, "title"@) == Some(JsonView::Str(x.title@))
            &&& json::lookup(r, "category"@) == Some(JsonView::Str(x.category@))
            &&& json::lookup(r, "title_foreign"@) == Some(disc_snapshot::opt_value(text::opt_text(x.title_foreign)))
            &&& json::lookup(r, "disc_number"@) == Some(disc_snapshot::opt_value(text::opt_text(x.disc_number)))
            &&& json::lookup(r, "disc_title"@) == Some(disc_snapshot::opt_value(text::opt_text(x.disc_title)))
            &&& json::lookup(r, "filename_suffix"@) == Some(disc_snapshot::opt_value(text::opt_text(x.filename_suffix)))
        }),
{
    let x = d.disc;
    lemma_name_codes();
    let o = Seq::<(Seq<char>, JsonView)>::empty();
    lemma_put(o, "system_code"@, JsonView::Str(x.system_code@));
    let o = json::put(o, "system_code"@, JsonView::Str(x.system_code@));
    lemma_put(o, "media_type"@, JsonView::Str(x.media_type.code@));
    let o = json::put(o, "media_type"@, JsonView::Str(x.media_type.code@));
    lemma_put(o, "title"@, JsonView::Str(x.title@));
    let o = json::put(o, "title"@, JsonView::Str(x.title@));
    lemma_put(o, "category"@, JsonView::Str(x.category@));
    let o = json::put(o, "category"@, JsonView::Str(x.category@));
    lemma_put(o, "title_foreign"@, disc_snapshot::opt_value(text::opt_text(x.title_foreign)));
    let o = json::put(o, "title_foreign"@, disc_snapshot::opt_value(text::opt_text(x.title_foreign)));
    lemma_put(o, "disc_number"@, disc_snapshot::opt_value(text::opt_text(x.disc_number)));
    let o = json::put(o, "disc_number"@, disc_snapshot::opt_value(text::opt_text(x.disc_number)));
    lemma_put(o, "disc_title"@, disc_snapshot::opt_value(text::opt_text(x.disc_title)));
    let o = json::put(o, "disc_title"@, disc_snapshot::opt_value(text::opt_text(x.disc_title)));
    lemma_put(o, "filename_suffix"@, disc_snapshot::opt_value(text::opt_text(x.filename_suffix)));
    let o = json::put(o, "filename_suffix"@, disc_snapshot::opt_value(text::opt_text(x.filename_suffix)));
}

proof fn lemma_release_fields(o: Seq<(Seq<char>, JsonView)>, d: DiscDetail)
    ensures
        ({
            let x = d.disc;
            let r = disc_snapshot::with_release_entries(o, x);
            &&& json::lookup(r, "serial"@) == Some(disc_snapshot::text_values(text::texts(x.serial@)))
            &&& json::lookup(r, "version"@) == Some(disc_snapshot::opt_value(text::opt_text(x.version)))
            &&& json::lookup(r, "edition"@) == Some(disc_snapshot::text_values(text::texts(x.edition@)))
            &&& json::lookup(r, "barcode"@) == Some(disc_snapshot::text_values(text::texts(x.barcode@)))
            &&& json::lookup(r, "comments"@) == Some(disc_snapshot::opt_value(text::opt_text(x.comments)))
            &&& json::lookup(r, "contents"@) == Some(disc_snapshot::opt_value(text::opt_text(x.contents)))
            &&& json::lookup(r, "error_count"@) == Some(disc_snapshot::opt_int_value(x.error_count))
            &&& json::lookup(r, "exe_date"@) == Some(disc_snapshot::opt_value(text::opt_text(x.exe_date)))
            &&& json::lookup(r, "edc"@) == Some(JsonView::Bool(x.edc))
            &&& json::lookup(r, "layerbreaks"@) == Some(disc_snapshot::layerbreak_values(x.layerbreaks))
            &&& json::lookup(r, "system_code"@) == json::lookup(o, "system_code"@)
            &&& json::lookup(r, "media_type"@) == json::lookup(o, "media_type"@)
            &&& json::lookup(r, "title"@) == json::lookup(o, "title"@)
            &&& json::lookup(r, "category"@) == json::lookup(o, "category"@)
            &&& json::lookup(r, "title_foreign"@) == json::lookup(o, "title_foreign"@)
            &&& json::lookup(r, "disc_number"@) == json::lookup(o, "disc_number"@)
            &&& json::lookup(r, "disc_title"@) == json::lookup(o, "disc_title"@)
            &&& json::lookup(r, "filename_suffix"@) == json::lookup(o, "filename_suffix"@)
        }),
{
    let x = d.disc;
    lemma_name_codes();
    lemma_put(o, "serial"@, disc_snapshot::text_values(text::texts(x.serial@)));
    let o = json::put(o, "serial"@, disc_snapshot::text_values(text::texts(x.serial@)));
    lemma_put(o, "version"@, disc_snapshot::opt_value(text::opt_text(x.version)));
    let o = json::put(o, "version"@, disc_snapshot::opt_value(text::opt_text(x.version)));
    lemma_put(o, "edition"@, disc_snapshot::text_values(text::texts(x.edition@)));
    let o = json::put(o, "edition"@, disc_snapshot::text_values(text::texts(x.edition@)));
    lemma_put(o, "barcode"@, disc_snapshot::text_values(text::texts(x.barcode@)));
    let o = json::put(o, "barcode"@, disc_snapshot::text_values(text::texts(x.barcode@)));
    lemma_put(o, "comments"@, disc_snapshot::opt_value(text::opt_text(x.comments)));
    let o = json::put(o, "comments"@, disc_snapshot::opt_value(text::opt_text(x.comments)));
    lemma_put(o, "contents"@, disc_snapshot::opt_value(text::opt_text(x.contents)));
    let o = json::put(o, "contents"@, disc_snapshot::opt_value(text::opt_text(x.contents)));
    lemma_put(o, "error_count"@, disc_snapshot::opt_int_value(x.error_count));
    let o = json::put(o, "error_count"@, disc_snapshot::opt_int_value(x.error_count));
    lemma_put(o, "exe_date"@, disc_snapshot::opt_value(text::opt_text(x.exe_date)));
    let o = json::put(o, "exe_date"@, disc_snapshot::opt_value(text::opt_text(x.exe_date)));
    lemma_put(o, "edc"@, JsonView::Bool(x.edc));
    let o = json::put(o, "edc"@, JsonView::Bool(x.edc));
    lemma_put(o, "layerbreaks"@, disc_snapshot::layerbreak_values(x.layerbreaks));
    let o = json::put(o, "layerbreaks"@, disc_snapshot::layerbreak_values(x.layerbreaks));
}

proof fn lemma_data_fields(o: Seq<(Seq<char>, JsonView)>, d: DiscDetail)
    ensures
        ({
            let x = d.disc;
            let r = disc_snapshot::with_data_entries(o, x);
            &&& json::lookup(r, "pvd"@) == Some(disc_snapshot::pvd_value(x.pvd))
            &&& json::lookup(r, "pic"@) == Some(disc_snapshot::dump_value(x.pic))
            &&& json::lookup(r, "bca"@) == Some(disc_snapshot::dump_value(x.bca))
            &&& json::lookup(r, "header"@) == Some(disc_snapshot::dump_value(x.header))
            &&& json::lookup(r, "protection"@) == Some(disc_snapshot::opt_value(text::opt_text(x.protection)))
            &&& json::lookup(r, "sbi"@) == Some(disc_snapshot::opt_value(text::opt_text(x.sbi)))
            &&& json::lookup(r, "disc_id"@) == Some(disc_snapshot::opt_value(text::opt_text(x.disc_id)))
            &&& json::lookup(r, "disc_key"@) == Some(disc_snapshot::hex_text_value(x.disc_key))
            &&& json::lookup(r, "universal_hash"@) == Some(disc_snapshot::hex_text_value(x.universal_hash))
            &&& json::lookup(r, "system_code"@) == json::lookup(o, "system_code"@)
            &&& json::lookup(r, "media_type"@) == json::lookup(o, "media_type"@)
            &&& json::lookup(r, "title"@) == json::lookup(o, "title"@)
            &&& json::lookup(r, "category"@) == json::lookup(o, "category"@)
            &&& json::lookup(r, "title_foreign"@) == json::lookup(o, "title_foreign"@)
            &&& json::lookup(r, "disc_number"@) == json::lookup(o, "disc_number"@)
            &&& json::lookup(r, "disc_title"@) == json::lookup(o, "disc_title"@)
            &&& json::lookup(r, "filename_suffix"@) == json::lookup(o, "filename_suffix"@)
            &&& json::lookup(r, "serial"@) == json::lookup(o, "serial"@)
            &&& json::lookup(r, "version"@) == json::lookup(o, "version"@)
            &&& json::lookup(r, "edition"@) == json::lookup(o, "edition"@)
            &&& json::lookup(r, "barcode"@) == json::lookup(o, "barcode"@)
            &&& json::lookup(r, "comments"@) == json::lookup(o, "comments"@)
            &&& json::lookup(r, "contents"@) == json::lookup(o, "contents"@)
            &&& json::lookup(r, "error_count"@) == json::lookup(o, "error_count"@)
            &&& json::lookup(r, "exe_date"@) == json::lookup(o, "exe_date"@)
            &&& json::lookup(r, "edc"@) == json::lookup(o, "edc"@)
            &&& json::lookup(r, "layerbreaks"@) == json::lookup(o, "layerbreaks"@)
        }),
{
    let x = d.disc;
    lemma_name_codes();
    lemma_put(o, "pvd"@, disc_snapshot::pvd_value(x.pvd));
    let o = json::put(o, "pvd"@, disc_snapshot::pvd_value(x.pvd));
    lemma_put(o, "pic"@, disc_snapshot::dump_value(x.pic));
    let o = json::put(o, "pic"@, disc_snapshot::dump_value(x.pic));
    lemma_put(o, "bca"@, disc_snapshot::dump_value(x.bca));
    let o = json::put(o, "bca"@, disc_snapshot::dump_value(x.bca));
    lemma_put(o, "header"@, disc_snapshot::dump_value(x.header));
    let o = json::put(o, "header"@, disc_snapshot::dump_value(x.header));
    lemma_put(o, "protection"@, disc_snapshot::opt_value(text::opt_text(x.protection)));
    let o = json::put(o, "protection"@, disc_snapshot::opt_value(text::opt_text(x.protection)));
    lemma_put(o, "sbi"@, disc_snapshot::opt_value(text::opt_text(x.sbi)));
    let o = json::put(o, "sbi"@, disc_snapshot::opt_value(text::opt_text(x.sbi)));
    lemma_put(o, "disc_id"@, disc_snapshot::opt_value(text::opt_text(x.disc_id)));
    let o = json::put(o, "disc_id"@, disc_snapshot::opt_value(text::opt_text(x.disc_id)));
    lemma_put(o, "disc_key"@, disc_snapshot::hex_text_value(x.disc_key));
    let o = json::put(o, "disc_key"@, disc_snapshot::hex_text_value(x.disc_key));
    lemma_put(o, "universal_hash"@, disc_snapshot::hex_text_value(x.universal_hash));
    let o = json::put(o, "universal_hash"@, disc_snapshot::hex_text_value(x.universal_hash));
}

proof fn lemma_last_fields(o: Seq<(Seq<char>, JsonView)>, d: DiscDetail)
    ensures
        ({
            let x = d.disc;
            let r = with_last_entries(o, d);
            &&& json::lookup(r, "cuesheet"@) == Some(disc_snapshot::cue_value(x.cue, x.media_type.rom_extension@))
            &&& json::lookup(r, "status"@) == Some(JsonView::Str(x.status.name()))
            &&& json::lookup(r, "regions"@) == Some(disc_snapshot::text_values(disc_snapshot::region_codes(d.regions@)))
            &&& json::lookup(r, "languages"@) == Some(disc_snapshot::text_values(disc_snapshot::language_codes(d.languages@)))
            &&& json::lookup(r, "ring_codes"@) == Some(JsonView::Arr(disc_snapshot::ring_values(d.ring_entries@, (x.media_type.layer_count + 1) as nat)))
            &&& json::lookup(r, "sector_ranges"@) == Some(JsonView::Arr(disc_snapshot::range_values(d.sector_ranges@)))
            &&& json::lookup(r, "dat"@) == Some(disc_snapshot::dat_value(d.files@, x.media_type.rom_extension@))
            &&& json::lookup(r, "system_code"@) == json::lookup(o, "system_code"@)
            &&& json::lookup(r, "media_type"@) == json::lookup(o, "media_type"@)
            &&& json::lookup(r, "title"@) == json::lookup(o, "title"@)
            &&& json::lookup(r, "category"@) == json::lookup(o, "category"@)
            &&& json::lookup(r, "title_foreign"@) == json::lookup(o, "title_foreign"@)
            &&& json::lookup(r, "disc_number"@) == json::lookup(o, "disc_number"@)
            &&& json::lookup(r, "disc_title"@) == json::lookup(o, "disc_title"@)
            &&& json::lookup(r, "filename_suffix"@) == json::lookup(o, "filename_suffix"@)
            &&& json::lookup(r, "serial"@) == json::lookup(o, "serial"@)
            &&& json::lookup(r, "version"@) == json::lookup(o, "version"@)
            &&& json::lookup(r, "edition"@) == json::lookup(o, "edition"@)
            &&& json::lookup(r, "barcode"@) == json::lookup(o, "barcode"@)
            &&& json::lookup(r, "comments"@) == json::lookup(o, "comments"@)
            &&& json::lookup(r, "contents"@) == json::lookup(o, "contents"@)
            &&& json::lookup(r, "error_count"@) == json::lookup(o, "error_count"@)
            &&& json::lookup(r, "exe_date"@) == json::lookup(o, "exe_date"@)
            &&& json::lookup(r, "edc"@) == json::lookup(o, "edc"@)
            &&& json::lookup(r, "layerbreaks"@) == json::lookup(o, "layerbreaks"@)
            &&& json::lookup(r, "pvd"@) == json::lookup(o, "pvd"@)
            &&& json::lookup(r, "pic"@) == json::lookup(o, "pic"@)
            &&& json::lookup(r, "bca"@) == json::lookup(o, "bca"@)
            &&& json::lookup(r, "header"@) == json::lookup(o, "header"@)
            &&& json::lookup(r, "protection"@) == json::lookup(o, "protection"@)
            &&& json::lookup(r, "sbi"@) == json::lookup(o, "sbi"@)
            &&& json::lookup(r, "disc_id"@) == json::lookup(o, "disc_id"@)
            &&& json::lookup(r, "disc_key"@) == json::lookup(o, "disc_key"@)
            &&& json::lookup(r, "universal_hash"@) == json::lookup(o, "universal_hash"@)
        }),
{
    let x = d.disc;
    lemma_name_codes();
    lemma_put(o, "cuesheet"@, disc_snapshot::cue_value(x.cue, x.media_type.rom_extension@));
    let o = json::put(o, "cuesheet"@, disc_snapshot::cue_value(x.cue, x.media_type.rom_extension@));
    lemma_put(o, "status"@, JsonView::Str(x.status.name()));
    let o = json::put(o, "status"@, JsonView::Str(x.status.name()));
    lemma_put(o, "regions"@, disc_snapshot::text_values(disc_snapshot::region_codes(d.regions@)));
    let o = json::put(o, "regions"@, disc_snapshot::text_values(disc_snapshot::region_codes(d.regions@)));
    lemma_put(o, "languages"@, disc_snapshot::text_values(disc_snapshot::language_codes(d.languages@)));
    let o = json::put(o, "languages"@, disc_snapshot::text_values(disc_snapshot::language_codes(d.languages@)));
    lemma_put(o, "ring_codes"@, JsonView::Arr(disc_snapshot::ring_values(d.ring_entries@, (x.media_type.layer_count + 1) as nat)));
    let o = json::put(o, "ring_codes"@, JsonView::Arr(disc_snapshot::ring_values(d.ring_entries@, (x.media_type.layer_count + 1) as nat)));
    lemma_put(o, "sector_ranges"@, JsonView::Arr(disc_snapshot::range_values(d.sector_ranges@)));
    let o = json::put(o, "sector_ranges"@, JsonView::Arr(disc_snapshot::range_values(d.sector_ranges@)));
    lemma_put(o, "dat"@, disc_snapshot::dat_value(d.files@, x.media_type.rom_extension@));
    let o = json::put(o, "dat"@, disc_snapshot::dat_value(d.files@, x.media_type.rom_extension@));
}

/// The entries of a snapshot after those of the disc itself.
spec fn with_last_entries(o: Seq<(Seq<char>, JsonView)>, d: DiscDetail) -> Seq<
    (Seq<char>, JsonView),
> {
    let x = d.disc;
    let o = json::put(o, "cuesheet"@, disc_snapshot::cue_value(x.cue, x.media_type.rom_extension@));
    let o = json::put(o, "status"@, JsonView::Str(x.status.name()));
    let o = json::put(o, "regions"@, disc_snapshot::text_values(disc_snapshot::region_codes(d.regions@)));
    let o = json::put(o, "languages"@, disc_snapshot::text_values(disc_snapshot::language_codes(d.languages@)));
    let o = json::put(o, "ring_codes"@, JsonView::Arr(disc_snapshot::ring_values(d.ring_entries@, (x.media_type.layer_count + 1) as nat)));
    let o = json::put(o, "sector_ranges"@, JsonView::Arr(disc_snapshot::range_values(d.sector_ranges@)));
    json::put(o, "dat"@, disc_snapshot::dat_value(d.files@, x.media_type.rom_extension@))
}

pub proof fn lemma_snapshot_fields(d: DiscDetail)
    ensures
        ({
            let x = d.disc;
            let s = disc_snapshot::snapshot(d);
            &&& json::field(s, "system_code"@) == JsonView::Str(x.system_code@)
            &&& json::field(s, "media_type"@) == JsonView::Str(x.media_type.code@)
            &&& json::field(s, "title"@) == JsonView::Str(x.title@)
            &&& json::field(s, "category"@) == JsonView::Str(x.category@)
            &&& json::field(s, "title_foreign"@) == disc_snapshot::opt_value(text::opt_text(x.title_foreign))
            &&& json::field(s, "disc_number"@) == disc_snapshot::opt_value(text::opt_text(x.disc_number))
            &&& json::field(s, "disc_title"@) == disc_snapshot::opt_value(text::opt_text(x.disc_title))
            &&& json::field(s, "filename_suffix"@) == disc_snapshot::opt_value(text::opt_text(x.filename_suffix))
            &&& json::field(s, "serial"@) == disc_snapshot::text_values(text::texts(x.serial@))
            &&& json::field(s, "version"@) == disc_snapshot::opt_value(text::opt_text(x.version))
            &&& json::field(s, "edition"@) == disc_snapshot::text_values(text::texts(x.edition@))
            &&& json::field(s, "barcode"@) == disc_snapshot::text_values(text::texts(x.barcode@))
            &&& json::field(s, "comments"@) == disc_snapshot::opt_value(text::opt_text(x.comments))
            &&& json::field(s, "contents"@) == disc_snapshot::opt_value(text::opt_text(x.contents))
            &&& json::field(s, "error_count"@) == disc_snapshot::opt_int_value(x.error_count)
            &&& json::field(s, "exe_date"@) == disc_snapshot::opt_value(text::opt_text(x.exe_date))
            &&& json::field(s, "edc"@) == JsonView::Bool(x.edc)
            &&& json::field(s, "layerbreaks"@) == disc_snapshot::layerbreak_values(x.layerbreaks)
            &&& json::field(s, "pvd"@) == disc_snapshot::pvd_value(x.pvd)
            &&& json::field(s, "pic"@) == disc_snapshot::dump_value(x.pic)
            &&& json::field(s, "bca"@) == disc_snapshot::dump_value(x.bca)
            &&& json::field(s, "header"@) == disc_snapshot::dump_value(x.header)
            &&& json::field(s, "protection"@) == disc_snapshot::opt_value(text::opt_text(x.protection))
            &&& json::field(s, "sbi"@) == disc_snapshot::opt_value(text::opt_text(x.sbi))
            &&& json::field(s, "disc_id"@) == disc_snapshot::opt_value(text::opt_text(x.disc_id))
            &&& json::field(s, "disc_key"@) == disc_snapshot::hex_text_value(x.disc_key)
            &&& json::field(s, "universal_hash"@) == disc_snapshot::hex_text_value(x.universal_hash)
            &&& json::field(s, "cuesheet"@) == disc_snapshot::cue_value(x.cue, x.media_type.rom_extension@)
            &&& json::field(s, "status"@) == JsonView::Str(x.status.name())
            &&& json::field(s, "regions"@) == disc_snapshot::text_values(disc_snapshot::region_codes(d.regions@))
            &&& json::field(s, "languages"@) == disc_snapshot::text_values(disc_snapshot::language_codes(d.languages@))
            &&& json::field(s, "ring_codes"@) == JsonView::Arr(disc_snapshot::ring_values(d.ring_entries@, (x.media_type.layer_count + 1) as nat))
            &&& json::field(s, "sector_ranges"@) == JsonView::Arr(disc_snapshot::range_values(d.sector_ranges@))
            &&& json::field(s, "dat"@) == disc_snapshot::dat_value(d.files@, x.media_type.rom_extension@)
        }),
{
    let x = d.disc;
    let names = disc_snapshot::name_entries(x);
    let release = disc_snapshot::with_release_entries(names, x);
    let data = disc_snapshot::with_data_entries(release, x);
    lemma_name_fields(d);
    lemma_release_fields(names, d);
    lemma_data_fields(release, d);
    lemma_last_fields(data, d);
    assert(disc_snapshot::snapshot_entries(d) == with_last_entries(data, d));
}

// ── Values that are stored again ───────────────────────────────────────────

/// A stored text, if it is not empty.
pub open spec fn kept_text(s: Option<String>) -> Option<Seq<char>> {
    match s {
        Some(t) => if t@.len() > 0 {
            Some(t@)
        } else {
            None
        },
        None => None,
    }
}

/// A stored text with line feeds as line endings, if it is not empty.
pub open spec fn kept_lines(s: Option<String>) -> Option<Seq<char>> {
    match s {
        Some(t) => if text::unix_newlines(t@).len() > 0 {
            Some(text::unix_newlines(t@))
        } else {
            None
        },
        None => None,
    }
}

/// A stored text without white space at either end, if it is not blank.
pub open spec fn kept_trimmed(s: Option<String>) -> Option<Seq<char>> {
    match s {
        Some(t) => if text::trim(t@).len() > 0 {
            Some(text::trim(t@))
        } else {
            None
        },
        None => None,
    }
}

/// Stored bytes, if there are any.
pub open spec fn kept_bytes(b: Option<Vec<u8>>) -> Option<Seq<u8>> {
    match b {
        Some(v) => if v@.len() > 0 {
            Some(v@)
        } else {
            None
        },
        None => None,
    }
}

/// Stored numbers, if there are any.
pub open spec fn kept_numbers(b: Option<Vec<i32>>) -> Option<Seq<i32>> {
    match b {
        Some(v) => if v@.len() > 0 {
            Some(v@)
        } else {
            None
        },
        None => None,
    }
}

/// A stored volume descriptor, filled up to 82 bytes.
pub open spec fn kept_pvd(b: Option<Vec<u8>>) -> Option<Seq<u8>> {
    match b {
        Some(v) => Some(dump_text::pvd_block(v@).take(82)),
        None => None,
    }
}

/// A stored cuesheet with simple track names and with line feeds as line endings, if it is
/// not empty.
pub open spec fn kept_cue(cue: Option<String>, ext: Seq<char>) -> Option<Seq<char>> {
    match cue {
        Some(c) => {
            let t = text::unix_newlines(naming::renamed_cue(c@, None, ext));
            if c@.len() > 0 && t.len() > 0 {
                Some(t)
            } else {
                None
            }
        },
        None => None,
    }
}

/// The literals of stored ranges.
pub open spec fn kept_ranges(v: Seq<ProtectionRange>) -> SectorRangeView {
    if v.len() == 0 {
        SectorRangeView::Clear
    } else {
        SectorRangeView::Replace(
            "{"@ + text::join(
                v.map_values(
                    |p: ProtectionRange|
                        "\"["@ + numbers::int_text(p.range_start as int) + ","@ + numbers::int_text(
                            p.range_end as int,
                        ) + ")\""@,
                ),
                ","@,
            ) + "}"@,
        )
    }
}

/// A universal hash that can be stored: of twenty bytes, if there is one.
pub open spec fn hash_ok(h: Option<Vec<u8>>) -> bool {
    h matches Some(b) ==> b@.len() == 20 || b@.len() == 0
}

proof fn lemma_trim_solid(s: Seq<char>)
    requires
        forall|i: int| 0 <= i < s.len() ==> !text::is_space(#[trigger] s[i]),
    ensures
        text::trim(s) == s,
{
    if s.len() > 0 {
        assert(!text::is_space(s[0]));
        assert(!text::is_space(s[s.len() - 1]));
    }
}

proof fn lemma_key_reads_back(name: Seq<char>, b: Option<Vec<u8>>)
    ensures
        hex_dump::hex_field(name, json::as_text(disc_snapshot::hex_text_value(b))) == Ok::<Option<Seq<u8>>, ErrorView>(
            kept_bytes(b),
        ),
{
    if let Some(v) = b {
        dump_text::law_hex_text_reads_back(v@);
        let s = dump_text::hex_text(v@);
        assert forall|i: int| 0 <= i < s.len() implies !text::is_space(#[trigger] s[i]) by {
            assert(text::is_hex(s[i]));
        }
        lemma_trim_solid(s);
    }
}

proof fn lemma_dump_field(data: Seq<u8>, base: nat, label: Seq<char>)
    ensures
        disc_update::dump_field(JsonView::Str(dump_text::dump_text(data, base)), label) == Ok::<
            Option<Seq<u8>>,
            ErrorView,
        >(
            if data.len() > 0 {
                Some(data)
            } else {
                None
            },
        ),
{
    let s = dump_text::dump_text(data, base);
    dump_text::lemma_dump_has_no_cr(data, base);
    hex_dump::lemma_unix_newlines_of_clean(s);
    dump_text::law_dump_reads_back(data, base);
    if data.len() == 0 {
        assert(s =~= Seq::<char>::empty());
    } else if s.len() == 0 {
        assert(hex_dump::binary_input(s) == Ok::<Seq<u8>, Seq<char>>(Seq::empty()));
    }
}

proof fn lemma_dump_reads_back(b: Option<Vec<u8>>, label: Seq<char>)
    ensures
        disc_update::dump_field(disc_snapshot::dump_value(b), label) == Ok::<Option<Seq<u8>>, ErrorView>(kept_bytes(b)),
{
    if let Some(v) = b {
        lemma_dump_field(v@, 0, label);
    }
}

proof fn lemma_pvd_reads_back(b: Option<Vec<u8>>)
    ensures
        disc_update::pvd_field(disc_snapshot::pvd_value(b)) == Ok::<Option<Seq<u8>>, ErrorView>(kept_pvd(b)),
{
    if let Some(v) = b {
        lemma_dump_field(dump_text::pvd_block(v@), 0x0320, "PVD: "@);
    }
}

proof fn lemma_list_texts(v: Seq<Seq<char>>)
    ensures
        json::list_texts(json::list_or_empty(disc_snapshot::text_values(v))) == v,
    decreases v.len(),
{
    let list = json::list_or_empty(disc_snapshot::text_values(v));
    if v.len() > 0 {
        lemma_list_texts(v.drop_last());
        assert(list.drop_last() =~= json::list_or_empty(disc_snapshot::text_values(v.drop_last())));
        assert(v.drop_last().push(v.last()) =~= v);
    } else {
        assert(json::list_texts(list) =~= v);
    }
}

proof fn lemma_list_numbers(v: Seq<i32>)
    ensures
        disc_update::list_numbers(json::list_or_empty(disc_snapshot::int_values(v))) == v,
    decreases v.len(),
{
    let list = json::list_or_empty(disc_snapshot::int_values(v));
    if v.len() > 0 {
        lemma_list_numbers(v.drop_last());
        assert(list.drop_last() =~= json::list_or_empty(disc_snapshot::int_values(v.drop_last())));
        assert(v.drop_last().push(v.last()) =~= v);
    } else {
        assert(disc_update::list_numbers(list) =~= v);
    }
}

proof fn lemma_range_ends(p: ProtectionRange)
    ensures
        json::as_int(json::field(disc_snapshot::range_value(p), "start"@)) == Some(p.range_start as int),
        json::as_int(json::field(disc_snapshot::range_value(p), "end"@)) == Some(p.range_end as int),
{
    reveal_strlit("start");
    reveal_strlit("end");
    assert("start"@.len() != "end"@.len());
    let o = Seq::<(Seq<char>, JsonView)>::empty();
    lemma_put(o, "start"@, JsonView::Int(p.range_start as int));
    let o = json::put(o, "start"@, JsonView::Int(p.range_start as int));
    lemma_put(o, "end"@, JsonView::Int(p.range_end as int));
}

proof fn lemma_range_literals(v: Seq<ProtectionRange>)
    ensures
        disc_update::range_literals(disc_snapshot::range_values(v)) == v.map_values(
            |p: ProtectionRange|
                "\"["@ + numbers::int_text(p.range_start as int) + ","@ + numbers::int_text(p.range_end as int)
                    + ")\""@,
        ),
    decreases v.len(),
{
    let list = disc_snapshot::range_values(v);
    let all = v.map_values(
        |p: ProtectionRange|
            "\"["@ + numbers::int_text(p.range_start as int) + ","@ + numbers::int_text(p.range_end as int)
                + ")\""@,
    );
    if v.len() > 0 {
        lemma_range_literals(v.drop_last());
        lemma_range_ends(v.last());
        assert(list.drop_last() =~= disc_snapshot::range_values(v.drop_last()));
        assert(list.last() == disc_snapshot::range_value(v.last()));
        assert(disc_update::range_literals(list) =~= all);
    } else {
        assert(disc_update::range_literals(list) =~= all);
    }
}

/// The snapshot of a disc can be stored again, and then writes what the disc holds: its
/// texts and bytes where they are not empty, its lists without blanks, and its ranges.
pub proof fn law_snapshot_writes_the_disc(d: DiscDetail)
    requires
        hash_ok(d.disc.universal_hash),
    ensures
        disc_update::update_refusal(disc_snapshot::snapshot(d)) is None,
        ({
            let x = d.disc;
            let u = disc_update::update_of(disc_snapshot::snapshot(d));
            &&& u.title == x.title@
            &&& u.system_code == Some(x.system_code@)
            &&& u.media_type == Some(x.media_type.code@)
            &&& u.category == x.category@
            &&& u.title_foreign == kept_text(x.title_foreign)
            &&& u.disc_title == kept_text(x.disc_title)
            &&& u.disc_number == kept_text(x.disc_number)
            &&& u.filename_suffix == kept_text(x.filename_suffix)
            &&& u.serial == disc_service::filled_parts(text::texts(x.serial@))
            &&& u.version == kept_text(x.version)
            &&& u.edition == disc_service::filled_parts(text::texts(x.edition@))
            &&& u.barcode == disc_service::filled_parts(text::texts(x.barcode@))
            &&& u.comments == kept_lines(x.comments)
            &&& u.contents == kept_lines(x.contents)
            &&& u.error_count == x.error_count
            &&& u.exe_date == kept_text(x.exe_date)
            &&& u.edc == x.edc
            &&& u.layerbreaks == kept_numbers(x.layerbreaks)
            &&& u.pvd == kept_pvd(x.pvd)
            &&& u.pic == kept_bytes(x.pic)
            &&& u.bca == kept_bytes(x.bca)
            &&& u.header == kept_bytes(x.header)
            &&& u.protection == kept_lines(x.protection)
            &&& u.sbi == kept_lines(x.sbi)
            &&& u.disc_id == kept_trimmed(x.disc_id)
            &&& u.disc_key == kept_bytes(x.disc_key)
            &&& u.universal_hash == kept_bytes(x.universal_hash)
            &&& u.cue == kept_cue(x.cue, x.media_type.rom_extension@)
            &&& u.status == x.status
            &&& u.sector_ranges == kept_ranges(d.sector_ranges@)
            &&& u.regions == disc_snapshot::region_codes(d.regions@)
            &&& u.languages == disc_snapshot::language_codes(d.languages@)
        }),
{
    let x = d.disc;
    let u = disc_update::update_of(disc_snapshot::snapshot(d));
    lemma_snapshot_fields(d);
    lemma_list_texts(text::texts(x.serial@));
    lemma_list_texts(text::texts(x.edition@));
    lemma_list_texts(text::texts(x.barcode@));
    lemma_list_texts(disc_snapshot::region_codes(d.regions@));
    lemma_list_texts(disc_snapshot::language_codes(d.languages@));
    if let Some(v) = x.layerbreaks {
        lemma_list_numbers(v@);
    } else {
        assert(disc_update::list_numbers(Seq::empty()).len() == 0);
    }
    lemma_pvd_reads_back(x.pvd);
    lemma_dump_reads_back(x.pic, "PIC: "@);
    lemma_dump_reads_back(x.bca, "BCA: "@);
    lemma_dump_reads_back(x.header, "Header: "@);
    lemma_key_reads_back("disc_key"@, x.disc_key);
    lemma_key_reads_back("universal_hash"@, x.universal_hash);
    disc_update::law_status_reads_back(x.status);
    lemma_range_literals(d.sector_ranges@);
    assert(disc_snapshot::range_values(d.sector_ranges@).len() == d.sector_ranges@.len());
}

/// A stored volume descriptor of 82 bytes is written as it is.
pub proof fn law_volume_descriptors_stay(b: Vec<u8>)
    requires
        b@.len() == 82,
    ensures
        kept_pvd(Some(b)) == Some(b@),
{
    assert(dump_text::pvd_block(b@).take(82) =~= b@);
}

// ── Pressings that are stored again ────────────────────────────────────────

/// The row of a stored layer.
pub open spec fn kept_row(l: Option<DiscRingCodeLayer>, i: nat) -> LayerView {
    LayerView {
        layer: disc_update::low_bits(i as int),
        mastering_code: match l {
            Some(x) => kept_text(x.mastering_code),
            None => None,
        },
        mastering_sid: match l {
            Some(x) => kept_text(x.mastering_sid),
            None => None,
        },
        mould_sids: match l {
            Some(x) => disc_snapshot::stored_list(x.mould_sids@),
            None => Seq::empty(),
        },
        toolstamps: match l {
            Some(x) => disc_snapshot::stored_list(x.toolstamps@),
            None => Seq::empty(),
        },
        additional_moulds: match l {
            Some(x) => disc_snapshot::stored_list(x.additional_moulds@),
            None => Seq::empty(),
        },
    }
}

/// The rows of the first `n` layers of a stored pressing that say something.
pub open spec fn kept_rows(layers: Seq<DiscRingCodeLayer>, n: nat) -> Seq<LayerView>
    decreases n,
{
    if n == 0 {
        Seq::empty()
    } else {
        let before = kept_rows(layers, (n - 1) as nat);
        let row = kept_row(disc_service::find_layer(layers, n - 1), (n - 1) as nat);
        if disc_update::row_has_data(row) {
            before.push(row)
        } else {
            before
        }
    }
}

/// The row of a stored pressing.
pub open spec fn kept_ring(e: RingEntryView, layers: nat) -> RingView {
    RingView {
        id: Some(e.id),
        offset_value: disc_update::opt_int(e.offset_value),
        offset_extra_value: disc_update::opt_int(e.offset_extra_value),
        sample_start: disc_update::opt_int(e.sample_data_start),
        comment: kept_text(e.comment),
        layers: kept_rows(e.layers@, layers),
    }
}

proof fn lemma_list_stays(s: Seq<char>)
    ensures
        text::join(disc_service::csv_sorted(disc_snapshot::stored_list(s)), ", "@) == disc_snapshot::stored_list(s),
        text::join(disc_service::csv_sorted(Seq::empty()), ", "@) == Seq::<char>::empty(),
{
    disc_service::law_lists_normalize_once(s);
    disc_service::law_lists_normalize_once(Seq::empty());
    disc_service::lemma_no_items();
}

proof fn lemma_layer_row(l: Option<DiscRingCodeLayer>, i: nat)
    ensures
        disc_update::layer_row(disc_snapshot::layer_value(l), i) == kept_row(l, i),
{
    reveal_strlit("mastering_code");
    reveal_strlit("mastering_sid");
    reveal_strlit("mould_sids");
    reveal_strlit("toolstamps");
    reveal_strlit("additional_moulds");
    assert("mastering_code"@.len() == 14 && "mastering_sid"@.len() == 13);
    assert("mould_sids"@.len() == 10 && "toolstamps"@.len() == 10);
    assert("additional_moulds"@.len() == 17);
    assert("mould_sids"@[0] == 'm' && "toolstamps"@[0] == 't');
    let code = match l {
        Some(x) => disc_service::text_or(x.mastering_code),
        None => Seq::empty(),
    };
    let sid = match l {
        Some(x) => disc_service::text_or(x.mastering_sid),
        None => Seq::empty(),
    };
    let moulds = match l {
        Some(x) => disc_snapshot::stored_list(x.mould_sids@),
        None => Seq::empty(),
    };
    let stamps = match l {
        Some(x) => disc_snapshot::stored_list(x.toolstamps@),
        None => Seq::empty(),
    };
    let more = match l {
        Some(x) => disc_snapshot::stored_list(x.additional_moulds@),
        None => Seq::empty(),
    };
    let o = Seq::<(Seq<char>, JsonView)>::empty();
    lemma_put(o, "mastering_code"@, JsonView::Str(code));
    let o = json::put(o, "mastering_code"@, JsonView::Str(code));
    lemma_put(o, "mastering_sid"@, JsonView::Str(sid));
    let o = json::put(o, "mastering_sid"@, JsonView::Str(sid));
    lemma_put(o, "mould_sids"@, JsonView::Str(moulds));
    let o = json::put(o, "mould_sids"@, JsonView::Str(moulds));
    lemma_put(o, "toolstamps"@, JsonView::Str(stamps));
    let o = json::put(o, "toolstamps"@, JsonView::Str(stamps));
    lemma_put(o, "additional_moulds"@, JsonView::Str(more));
    let o = json::put(o, "additional_moulds"@, JsonView::Str(more));
    assert(disc_snapshot::layer_value(l) == JsonView::Obj(o));
    match l {
        Some(x) => {
            lemma_list_stays(x.mould_sids@);
            lemma_list_stays(x.toolstamps@);
            lemma_list_stays(x.additional_moulds@);
        },
        None => {
            lemma_list_stays(Seq::empty());
        },
    }
}

proof fn lemma_layer_rows(layers: Seq<DiscRingCodeLayer>, n: nat)
    ensures
        disc_update::layer_rows(disc_snapshot::layer_values(layers, n)) == kept_rows(layers, n),
    decreases n,
{
    let list = disc_snapshot::layer_values(layers, n);
    if n > 0 {
        lemma_layer_rows(layers, (n - 1) as nat);
        assert(list.drop_last() =~= disc_snapshot::layer_values(layers, (n - 1) as nat));
        assert(list.last() == disc_snapshot::layer_value(disc_service::find_layer(layers, n - 1)));
        lemma_layer_row(disc_service::find_layer(layers, n - 1), (n - 1) as nat);
    } else {
        assert(disc_update::layer_rows(list) =~= kept_rows(layers, n));
    }
}

proof fn lemma_number_reads_back(n: Option<i32>)
    ensures
        disc_update::number_field(JsonView::Str(disc_service::number_or_empty(n))) == disc_update::opt_int(n),
{
    match n {
        Some(v) => {
            numbers::law_int_text_reads_back(v as i64);
            let m = if v < 0 {
                (-v) as nat
            } else {
                v as nat
            };
            numbers::law_nat_text_reads_back(m);
            let s = numbers::int_text(v as int);
            assert forall|i: int| 0 <= i < s.len() implies !text::is_space(#[trigger] s[i]) by {
                if v < 0 && i > 0 {
                    assert(text::is_digit(numbers::nat_text(m)[i - 1]));
                } else if v >= 0 {
                    assert(text::is_digit(numbers::nat_text(m)[i]));
                }
            }
            lemma_trim_solid(s);
        },
        None => {
            lemma_trim_solid(Seq::empty());
        },
    }
}

proof fn lemma_ring_row(e: RingEntryView, layers: nat)
    ensures
        disc_update::ring_row(disc_snapshot::ring_value(e, layers)) == kept_ring(e, layers),
{
    reveal_strlit("id");
    reveal_strlit("offset_value");
    reveal_strlit("offset_extra_value");
    reveal_strlit("sample_start");
    reveal_strlit("comment");
    reveal_strlit("layers");
    assert("id"@.len() == 2 && "offset_value"@.len() == 12 && "offset_extra_value"@.len() == 18);
    assert("sample_start"@.len() == 12 && "comment"@.len() == 7 && "layers"@.len() == 6);
    assert("offset_value"@[0] == 'o' && "sample_start"@[0] == 's');
    let o = Seq::<(Seq<char>, JsonView)>::empty();
    let id = JsonView::Int(e.id as int);
    lemma_put(o, "id"@, id);
    let o = json::put(o, "id"@, id);
    let offset = JsonView::Str(disc_service::number_or_empty(e.offset_value));
    lemma_put(o, "offset_value"@, offset);
    let o = json::put(o, "offset_value"@, offset);
    let extra = JsonView::Str(disc_service::number_or_empty(e.offset_extra_value));
    lemma_put(o, "offset_extra_value"@, extra);
    let o = json::put(o, "offset_extra_value"@, extra);
    let start = JsonView::Str(disc_service::number_or_empty(e.sample_data_start));
    lemma_put(o, "sample_start"@, start);
    let o = json::put(o, "sample_start"@, start);
    let comment = JsonView::Str(disc_service::text_or(e.comment));
    lemma_put(o, "comment"@, comment);
    let o = json::put(o, "comment"@, comment);
    let list = JsonView::Arr(disc_snapshot::layer_values(e.layers@, layers));
    lemma_put(o, "layers"@, list);
    let o = json::put(o, "layers"@, list);
    assert(disc_snapshot::ring_value(e, layers) == JsonView::Obj(o));
    lemma_number_reads_back(e.offset_value);
    lemma_number_reads_back(e.offset_extra_value);
    lemma_number_reads_back(e.sample_data_start);
    lemma_layer_rows(e.layers@, layers);
}

/// The snapshot of a disc writes its pressings with their layers, in order: each under its
/// id, with its numbers, and with its lists of stamps as they are.
pub proof fn law_snapshot_writes_the_pressings(d: DiscDetail)
    ensures
        ({
            let layers = (d.disc.media_type.layer_count + 1) as nat;
            let order = order::stable_order(disc_service::stored_ring_keys(d.ring_entries@, layers));
            disc_update::update_of(disc_snapshot::snapshot(d)).ring_codes == Some(
                order::arranged(d.ring_entries@, order).map_values(
                    |e: RingEntryView| kept_ring(e, layers),
                ),
            )
        }),
{
    let layers = (d.disc.media_type.layer_count + 1) as nat;
    let sorted = order::arranged(
        d.ring_entries@,
        order::stable_order(disc_service::stored_ring_keys(d.ring_entries@, layers)),
    );
    lemma_snapshot_fields(d);
    let rows = disc_update::ring_rows(disc_snapshot::ring_values(d.ring_entries@, layers));
    let kept = sorted.map_values(|e: RingEntryView| kept_ring(e, layers));
    assert forall|i: int| 0 <= i < rows.len() implies rows[i] == kept[i] by {
        lemma_ring_row(sorted[i], layers);
        assert(disc_snapshot::ring_values(d.ring_entries@, layers)[i] == disc_snapshot::ring_value(sorted[i], layers));
    }
    assert(rows =~= kept);
}

// ── Files that are stored again ────────────────────────────────────────────

/// A text that stands in an attribute as it is.
pub open spec fn is_plain(s: Seq<char>) -> bool {
    forall|i: int|
        0 <= i < s.len() ==> #[trigger] s[i] != '"' && s[i] != '=' && s[i] != '\n' && s[i] != '\r'
}

/// A stored file that a track list can hold: its hashes are plain, and its track has a
/// number without leading zeros, or is the one track of a disc image.
pub open spec fn file_ok(f: File, ext: Seq<char>) -> bool {
    &&& is_plain(f.crc32@)
    &&& is_plain(f.md5@)
    &&& is_plain(f.sha1@)
    &&& f.track_number matches Some(t) ==> {
        ||| (text::all_digits(t@) && t@.len() > 0 && t@[0] != '0')
        ||| (t@ == "0"@ && text::lower_text(ext) == "iso"@)
    }
}

/// The row of a stored file.
pub open spec fn kept_file(f: File) -> FileView {
    FileView {
        track_number: text::opt_text(f.track_number),
        size: f.size as int,
        crc32: f.crc32@,
        md5: f.md5@,
        sha1: f.sha1@,
    }
}

/// The rows of the stored files that are tracks.
pub open spec fn kept_files(fs: Seq<File>) -> Seq<FileView>
    decreases fs.len(),
{
    if fs.len() == 0 {
        Seq::empty()
    } else {
        let before = kept_files(fs.drop_last());
        if fs.last().track_number is Some {
            before.push(kept_file(fs.last()))
        } else {
            before
        }
    }
}

/// An attribute of a line.
spec fn attribute_text(name: Seq<char>, value: Seq<char>) -> Seq<char> {
    seq![' '] + name + seq!['=', '"'] + value + seq!['"']
}

/// No name that ends in `a` and `b` is given a value in `s`.
spec fn gives_no(s: Seq<char>, a: char, b: char) -> bool {
    forall|p: int|
        0 <= p < s.len() && #[trigger] s[p] == '=' ==> p >= 2 && !(s[p - 2] == a && s[p - 1] == b)
}

proof fn lemma_gives_no(s: Seq<char>, name: Seq<char>, value: Seq<char>, a: char, b: char)
    requires
        gives_no(s, a, b),
        name.len() >= 2,
        is_plain(name),
        is_plain(value),
        name[name.len() - 2] != a || name[name.len() - 1] != b,
    ensures
        gives_no(s + attribute_text(name, value), a, b),
{
    let t = s + attribute_text(name, value);
    let n = s.len() as int;
    let m = name.len() as int;
    assert forall|p: int| 0 <= p < t.len() && #[trigger] t[p] == '=' implies p >= 2 && !(t[p - 2]
        == a && t[p - 1] == b) by {
        if p < n {
            assert(s[p] == '=');
        } else if p == n {
        } else if p < n + 1 + m {
            assert(t[p] == name[p - n - 1]);
        } else if p == n + 1 + m {
            assert(t[p - 1] == name[m - 1]);
            assert(t[p - 2] == name[m - 2]);
        } else if p == n + 2 + m {
        } else if p < n + 3 + m + value.len() {
            assert(t[p] == value[p - n - 3 - m]);
        }
    }
}

proof fn lemma_attribute_reads_back(
    s: Seq<char>,
    name: Seq<char>,
    value: Seq<char>,
    rest: Seq<char>,
)
    requires
        name.len() >= 2,
        is_plain(name),
        is_plain(value),
        gives_no(s, name[name.len() - 2], name[name.len() - 1]),
    ensures
        validation::attribute(s + attribute_text(name, value) + rest, name) == Some(value),
{
    reveal_strlit("=\"");
    let line = s + attribute_text(name, value) + rest;
    let needle = name + "=\""@;
    let n = s.len() as int;
    let m = name.len() as int;
    assert("=\""@ =~= seq!['=', '"']);
    assert(line.subrange(n + 1, n + 1 + needle.len()) =~= needle);
    assert(text::stands_at(line, needle, n + 1));
    assert forall|j: int| 0 <= j < n + 1 implies !#[trigger] text::stands_at(line, needle, j) by {
        if text::stands_at(line, needle, j) {
            let at = line.subrange(j, j + needle.len());
            let p = j + m;
            assert(at[m] == '=' && at[m - 1] == name[m - 1] && at[m - 2] == name[m - 2]);
            assert(line[p] == '=' && line[p - 1] == name[m - 1] && line[p - 2] == name[m - 2]);
            if p < n {
                assert(s[p] == '=' && s[p - 1] == line[p - 1] && s[p - 2] == line[p - 2]);
            } else if p > n {
                assert(line[p] == name[p - n - 1]);
            }
        }
    }
    text::lemma_find_from(line, needle, 0);
    assert(text::find(line, needle) == Some(n + 1));
    let tail = line.skip(n + 1 + needle.len());
    assert(tail =~= value + seq!['"'] + rest);
    text::lemma_index_from(tail, '"', 0);
    assert(tail[value.len() as int] == '"');
    assert forall|j: int| 0 <= j < value.len() implies tail[j] != '"' by {
        assert(tail[j] == value[j]);
    }
    assert(text::index_from(tail, '"', 0) == value.len());
    assert(tail.take(value.len() as int) =~= value);
}

/// The name of a track is plain.
proof fn lemma_name_is_plain(track: Seq<char>, total: nat, ext: Seq<char>)
    requires
        text::all_digits(track),
        is_plain(ext),
    ensures
        is_plain(naming::simple_track_name(track, total, ext)),
{
    reveal_strlit("0");
    reveal_strlit("Track.");
    reveal_strlit("Track ");
    reveal_strlit(".");
    let name = naming::simple_track_name(track, total, ext);
    let p = naming::padded_track(track, total);
    assert forall|i: int| 0 <= i < p.len() implies text::is_digit(#[trigger] p[i]) by {
        if total >= 10 && track.len() == 1 {
            assert(p[i] == '0' || p[i] == track[i - 1]);
        } else {
            assert(p[i] == track[i]);
        }
    }
    assert forall|i: int| 0 <= i < name.len() implies #[trigger] name[i] != '"' && name[i] != '='
        && name[i] != '\n' && name[i] != '\r' by {
        if track == "0"@ {
            if i >= 6 {
                assert(name[i] == ext[i - 6]);
            } else {
                assert(name[i] == "Track."@[i]);
            }
        } else if i < 6 {
            assert(name[i] == "Track "@[i]);
        } else if i < 6 + p.len() {
            assert(text::is_digit(p[i - 6]));
        } else if i == 6 + p.len() {
            assert(name[i] == '.');
        } else {
            assert(name[i] == ext[i - 7 - p.len()]);
        }
    }
}

/// A line of a track list is its attributes in turn.
proof fn lemma_rom_line_shape(
    name: Seq<char>,
    size: Seq<char>,
    crc: Seq<char>,
    md5: Seq<char>,
    sha1: Seq<char>,
)
    ensures
        "<rom name=\""@ + name + "\" size=\""@ + size + "\" crc=\""@ + crc + "\" md5=\""@ + md5
            + "\" sha1=\""@ + sha1 + "\" />"@ == "<rom"@ + attribute_text("name"@, name)
            + attribute_text("size"@, size) + attribute_text("crc"@, crc) + attribute_text(
            "md5"@,
            md5,
        ) + attribute_text("sha1"@, sha1) + " />"@,
{
    reveal_strlit("<rom name=\"");
    reveal_strlit("\" size=\"");
    reveal_strlit("\" crc=\"");
    reveal_strlit("\" md5=\"");
    reveal_strlit("\" sha1=\"");
    reveal_strlit("\" />");
    reveal_strlit("<rom");
    reveal_strlit("name");
    reveal_strlit("size");
    reveal_strlit("crc");
    reveal_strlit("md5");
    reveal_strlit("sha1");
    reveal_strlit(" />");
    let quote = seq!['"'];
    let l1 = "<rom name=\""@ + name;
    let p1 = "<rom"@ + attribute_text("name"@, name);
    assert(l1 + quote =~= p1);
    let l2 = l1 + "\" size=\""@ + size;
    let p2 = p1 + attribute_text("size"@, size);
    assert("\" size=\""@ =~= quote + seq![' '] + "size"@ + seq!['=', '"']);
    assert(l2 + quote =~= p2);
    let l3 = l2 + "\" crc=\""@ + crc;
    let p3 = p2 + attribute_text("crc"@, crc);
    assert("\" crc=\""@ =~= quote + seq![' '] + "crc"@ + seq!['=', '"']);
    assert(l3 + quote =~= p3);
    let l4 = l3 + "\" md5=\""@ + md5;
    let p4 = p3 + attribute_text("md5"@, md5);
    assert("\" md5=\""@ =~= quote + seq![' '] + "md5"@ + seq!['=', '"']);
    assert(l4 + quote =~= p4);
    let l5 = l4 + "\" sha1=\""@ + sha1;
    let p5 = p4 + attribute_text("sha1"@, sha1);
    assert("\" sha1=\""@ =~= quote + seq![' '] + "sha1"@ + seq!['=', '"']);
    assert(l5 + quote =~= p5);
    assert("\" />"@ =~= quote + " />"@);
    assert(l5 + "\" />"@ =~= p5 + " />"@);
}

proof fn lemma_no_name_is_given(a: char, b: char)
    ensures
        gives_no("<rom"@, a, b),
{
    reveal_strlit("<rom");
    assert forall|p: int| 0 <= p < "<rom"@.len() && #[trigger] "<rom"@[p] == '=' implies false by {
        assert("<rom"@ =~= seq!['<', 'r', 'o', 'm']);
    }
}

proof fn lemma_attribute_names()
    ensures
        is_plain("name"@) && "name"@.len() == 4 && "name"@[2] == 'm' && "name"@[3] == 'e',
        is_plain("size"@) && "size"@.len() == 4 && "size"@[2] == 'z' && "size"@[3] == 'e',
        is_plain("crc"@) && "crc"@.len() == 3 && "crc"@[1] == 'r' && "crc"@[2] == 'c',
        is_plain("md5"@) && "md5"@.len() == 3 && "md5"@[1] == 'd' && "md5"@[2] == '5',
        is_plain("sha1"@) && "sha1"@.len() == 4 && "sha1"@[2] == 'a' && "sha1"@[3] == '1',
{
    reveal_strlit("name");
    reveal_strlit("size");
    reveal_strlit("crc");
    reveal_strlit("md5");
    reveal_strlit("sha1");
    assert("name"@ =~= seq!['n', 'a', 'm', 'e']);
    assert("size"@ =~= seq!['s', 'i', 'z', 'e']);
    assert("crc"@ =~= seq!['c', 'r', 'c']);
    assert("md5"@ =~= seq!['m', 'd', '5']);
    assert("sha1"@ =~= seq!['s', 'h', 'a', '1']);
}

proof fn lemma_rom_line(f: File, total: nat, ext: Seq<char>)
    requires
        file_ok(f, ext),
        is_plain(ext),
        f.track_number is Some,
    ensures
        text::trim(disc_snapshot::rom_line(f, total, ext)) == disc_snapshot::rom_line(f, total, ext),
        text::starts_with(disc_snapshot::rom_line(f, total, ext), "<rom "@),
        disc_update::file_row(disc_snapshot::rom_line(f, total, ext)) == kept_file(f),
        disc_snapshot::rom_line(f, total, ext).len() > 0,
        forall|i: int|
            0 <= i < disc_snapshot::rom_line(f, total, ext).len() ==> #[trigger] disc_snapshot::rom_line(f, total, ext)[i]
                != '\n' && disc_snapshot::rom_line(f, total, ext)[i] != '\r',
{
    let track = f.track_number->0@;
    let line = disc_snapshot::rom_line(f, total, ext);
    let name = naming::simple_track_name(track, total, ext);
    let size = numbers::int_text(f.size as int);
    reveal_strlit("0");
    assert(text::all_digits(track));
    lemma_name_is_plain(track, total, ext);
    if track == "0"@ {
        naming::law_image_name_reads_back(total, ext);
    } else {
        naming::law_track_name_reads_back(track, total, ext);
    }
    numbers::law_int_text_reads_back(f.size);
    lemma_int_text_is_plain(f.size as int);
    lemma_rom_line_shape(name, size, f.crc32@, f.md5@, f.sha1@);
    lemma_attribute_names();
    let end = " />"@;
    let n = attribute_text("name"@, name);
    let s = attribute_text("size"@, size);
    let c = attribute_text("crc"@, f.crc32@);
    let m = attribute_text("md5"@, f.md5@);
    let h = attribute_text("sha1"@, f.sha1@);
    let p0 = "<rom"@;
    let p1 = p0 + n;
    let p2 = p1 + s;
    let p3 = p2 + c;
    let p4 = p3 + m;
    assert(line == p4 + h + end);
    lemma_no_name_is_given('m', 'e');
    lemma_attribute_reads_back(p0, "name"@, name, s + c + m + h + end);
    assert(p0 + n + (s + c + m + h + end) =~= line);
    lemma_no_name_is_given('z', 'e');
    lemma_gives_no(p0, "name"@, name, 'z', 'e');
    lemma_attribute_reads_back(p1, "size"@, size, c + m + h + end);
    assert(p1 + s + (c + m + h + end) =~= line);
    lemma_no_name_is_given('r', 'c');
    lemma_gives_no(p0, "name"@, name, 'r', 'c');
    lemma_gives_no(p1, "size"@, size, 'r', 'c');
    lemma_attribute_reads_back(p2, "crc"@, f.crc32@, m + h + end);
    assert(p2 + c + (m + h + end) =~= line);
    lemma_no_name_is_given('d', '5');
    lemma_gives_no(p0, "name"@, name, 'd', '5');
    lemma_gives_no(p1, "size"@, size, 'd', '5');
    lemma_gives_no(p2, "crc"@, f.crc32@, 'd', '5');
    lemma_attribute_reads_back(p3, "md5"@, f.md5@, h + end);
    assert(p3 + m + (h + end) =~= line);
    lemma_no_name_is_given('a', '1');
    lemma_gives_no(p0, "name"@, name, 'a', '1');
    lemma_gives_no(p1, "size"@, size, 'a', '1');
    lemma_gives_no(p2, "crc"@, f.crc32@, 'a', '1');
    lemma_gives_no(p3, "md5"@, f.md5@, 'a', '1');
    lemma_attribute_reads_back(p4, "sha1"@, f.sha1@, end);
    lemma_line_is_clean(name, size, f.crc32@, f.md5@, f.sha1@);
}

proof fn lemma_int_text_is_plain(n: int)
    ensures
        is_plain(numbers::int_text(n)),
{
    let m = if n < 0 {
        (-n) as nat
    } else {
        n as nat
    };
    numbers::law_nat_text_reads_back(m);
    let s = numbers::int_text(n);
    assert forall|i: int| 0 <= i < s.len() implies #[trigger] s[i] != '"' && s[i] != '=' && s[i]
        != '\n' && s[i] != '\r' by {
        if n < 0 && i > 0 {
            assert(text::is_digit(numbers::nat_text(m)[i - 1]));
        } else if n >= 0 {
            assert(text::is_digit(numbers::nat_text(m)[i]));
        }
    }
}

/// A text without line endings.
spec fn is_one_line(s: Seq<char>) -> bool {
    forall|i: int| 0 <= i < s.len() ==> #[trigger] s[i] != '\n' && s[i] != '\r'
}

proof fn lemma_attribute_is_one_line(name: Seq<char>, value: Seq<char>)
    requires
        is_plain(name),
        is_plain(value),
    ensures
        is_one_line(attribute_text(name, value)),
{
    let t = attribute_text(name, value);
    let m = name.len() as int;
    assert forall|i: int| 0 <= i < t.len() implies #[trigger] t[i] != '\n' && t[i] != '\r' by {
        if 1 <= i < 1 + m {
            assert(t[i] == name[i - 1]);
        } else if 3 + m <= i < 3 + m + value.len() {
            assert(t[i] == value[i - 3 - m]);
        }
    }
}

proof fn lemma_one_line_append(a: Seq<char>, b: Seq<char>)
    requires
        is_one_line(a),
        is_one_line(b),
    ensures
        is_one_line(a + b),
{
    let s = a + b;
    assert forall|i: int| 0 <= i < s.len() implies #[trigger] s[i] != '\n' && s[i] != '\r' by {
        if i < a.len() {
            assert(s[i] == a[i]);
        } else {
            assert(s[i] == b[i - a.len()]);
        }
    }
}

proof fn lemma_line_is_clean(
    name: Seq<char>,
    size: Seq<char>,
    crc: Seq<char>,
    md5: Seq<char>,
    sha1: Seq<char>,
)
    requires
        is_plain(name),
        is_plain(size),
        is_plain(crc),
        is_plain(md5),
        is_plain(sha1),
    ensures
        ({
            let line = "<rom"@ + attribute_text("name"@, name) + attribute_text("size"@, size)
                + attribute_text("crc"@, crc) + attribute_text("md5"@, md5) + attribute_text(
                "sha1"@,
                sha1,
            ) + " />"@;
            &&& text::trim(line) == line
            &&& text::starts_with(line, "<rom "@)
            &&& is_one_line(line)
            &&& line.len() > 0
        }),
{
    reveal_strlit("<rom");
    reveal_strlit("<rom ");
    reveal_strlit(" />");
    lemma_attribute_names();
    assert("<rom"@ =~= seq!['<', 'r', 'o', 'm']);
    assert(" />"@ =~= seq![' ', '/', '>']);
    let p1 = "<rom"@ + attribute_text("name"@, name);
    let p2 = p1 + attribute_text("size"@, size);
    let p3 = p2 + attribute_text("crc"@, crc);
    let p4 = p3 + attribute_text("md5"@, md5);
    let p5 = p4 + attribute_text("sha1"@, sha1);
    let line = p5 + " />"@;
    lemma_attribute_is_one_line("name"@, name);
    lemma_attribute_is_one_line("size"@, size);
    lemma_attribute_is_one_line("crc"@, crc);
    lemma_attribute_is_one_line("md5"@, md5);
    lemma_attribute_is_one_line("sha1"@, sha1);
    assert(is_one_line("<rom"@));
    assert(is_one_line(" />"@));
    lemma_one_line_append("<rom"@, attribute_text("name"@, name));
    lemma_one_line_append(p1, attribute_text("size"@, size));
    lemma_one_line_append(p2, attribute_text("crc"@, crc));
    lemma_one_line_append(p3, attribute_text("md5"@, md5));
    lemma_one_line_append(p4, attribute_text("sha1"@, sha1));
    lemma_one_line_append(p5, " />"@);
    assert(p1[0] == '<' && p1[1] == 'r' && p1[2] == 'o' && p1[3] == 'm' && p1[4] == ' ');
    assert forall|i: int| 0 <= i < 5 implies line[i] == p1[i] by {
        assert(p2[i] == p1[i] && p3[i] == p2[i] && p4[i] == p3[i] && p5[i] == p4[i]);
    }
    assert(line.take(5) =~= "<rom "@);
    assert(line.last() == '>');
}

proof fn lemma_lines_append(a: Seq<char>, b: Seq<char>)
    requires
        a.len() > 0,
        a.last() != '\n',
        !a.contains('\r'),
        b.len() > 0,
        is_one_line(b),
    ensures
        text::lines(a.push('\n') + b) == text::lines(a).push(b),
    decreases a.len(),
{
    let s = a.push('\n') + b;
    text::lemma_index_from(s, '\n', 0);
    text::lemma_index_from(a, '\n', 0);
    let i = text::index_from(s, '\n', 0);
    let k = text::index_from(a, '\n', 0);
    assert(s[a.len() as int] == '\n');
    if k < a.len() {
        assert(s[k] == '\n');
        assert forall|j: int| 0 <= j < k implies s[j] != '\n' by {
            assert(a[j] != '\n');
        }
        assert(i == k);
        assert(k < a.len() - 1) by {
            assert(a[a.len() - 1] != '\n');
        }
        let r = a.skip(k + 1);
        assert(s.take(i) =~= a.take(k));
        assert(s.skip(i + 1) =~= r.push('\n') + b);
        assert(r.last() == a.last());
        assert forall|j: int| 0 <= j < r.len() implies r[j] != '\r' by {
            assert(a.contains(a[j + k + 1]));
        }
        lemma_lines_append(r, b);
        assert(text::lines(s) =~= text::lines(a).push(b));
    } else {
        assert forall|j: int| 0 <= j < a.len() implies s[j] != '\n' by {
            assert(a[j] != '\n');
        }
        assert(i == a.len());
        assert(s.take(i) =~= a);
        assert(a.contains(a[a.len() - 1]));
        assert(s.skip(i + 1) =~= b);
        text::lemma_index_from(b, '\n', 0);
        let q = text::index_from(b, '\n', 0);
        if q < b.len() {
            assert(b[q] == '\n');
        }
        assert(text::lines(b) =~= seq![b]);
        assert(text::lines(s) =~= text::lines(a).push(b));
    }
}

proof fn lemma_lines_of_joined(rows: Seq<Seq<char>>)
    requires
        forall|i: int| 0 <= i < rows.len() ==> (#[trigger] rows[i]).len() > 0 && is_one_line(rows[i]),
    ensures
        text::lines(text::join(rows, "\n"@)) == rows,
        !text::join(rows, "\n"@).contains('\r'),
        rows.len() > 0 ==> text::join(rows, "\n"@).len() > 0 && text::join(rows, "\n"@).last() != '\n',
    decreases rows.len(),
{
    let s = text::join(rows, "\n"@);
    reveal_strlit("\n");
    if rows.len() == 0 {
        assert(text::lines(s) =~= rows);
    } else {
        let last = rows[rows.len() - 1];
        assert(last.len() > 0 && is_one_line(last));
        if rows.len() == 1 {
            assert(s == last);
            text::lemma_index_from(s, '\n', 0);
            let q = text::index_from(s, '\n', 0);
            if q < s.len() {
                assert(s[q] == '\n');
            }
            assert(text::lines(s) =~= rows);
            assert(s[s.len() - 1] != '\n');
        } else {
            let p = rows.drop_last();
            assert forall|i: int| 0 <= i < p.len() implies (#[trigger] p[i]).len() > 0
                && is_one_line(p[i]) by {
                assert(p[i] == rows[i]);
            }
            lemma_lines_of_joined(p);
            let a = text::join(p, "\n"@);
            assert("\n"@ =~= seq!['\n']);
            assert(s =~= a.push('\n') + last);
            lemma_lines_append(a, last);
            assert(p.push(last) =~= rows);
            assert forall|i: int| 0 <= i < s.len() implies s[i] != '\r' by {
                if i < a.len() {
                    assert(a.contains(a[i]));
                } else if i > a.len() {
                    assert(s[i] == last[i - a.len() - 1]);
                }
            }
            assert(s.last() == last[last.len() - 1]);
        }
    }
}

proof fn lemma_rom_lines(fs: Seq<File>, total: nat, ext: Seq<char>)
    requires
        is_plain(ext),
        forall|i: int| 0 <= i < fs.len() ==> file_ok(#[trigger] fs[i], ext),
    ensures
        disc_update::file_rows(disc_snapshot::rom_lines(fs, total, ext)) == kept_files(fs),
        disc_snapshot::rom_lines(fs, total, ext).len() == disc_snapshot::track_count(fs),
        forall|i: int|
            0 <= i < disc_snapshot::rom_lines(fs, total, ext).len() ==> (#[trigger] disc_snapshot::rom_lines(fs, total, ext)[i]).len()
                > 0 && is_one_line(disc_snapshot::rom_lines(fs, total, ext)[i]),
    decreases fs.len(),
{
    let r = disc_snapshot::rom_lines(fs, total, ext);
    if fs.len() > 0 {
        let p = fs.drop_last();
        let f = fs[fs.len() - 1];
        assert(file_ok(f, ext));
        assert forall|i: int| 0 <= i < p.len() implies file_ok(#[trigger] p[i], ext) by {
            assert(p[i] == fs[i]);
        }
        lemma_rom_lines(p, total, ext);
        let before = disc_snapshot::rom_lines(p, total, ext);
        if f.track_number is Some {
            lemma_rom_line(f, total, ext);
            assert(r == before.push(disc_snapshot::rom_line(f, total, ext)));
            assert(r.drop_last() =~= before);
            assert(r.last() == disc_snapshot::rom_line(f, total, ext));
            assert forall|i: int| 0 <= i < r.len() implies (#[trigger] r[i]).len() > 0
                && is_one_line(r[i]) by {
                if i < before.len() {
                    assert(r[i] == before[i]);
                }
            }
        }
    } else {
        assert(disc_update::file_rows(r) =~= kept_files(fs));
    }
}

/// The snapshot of a disc writes its tracks with their sizes and hashes; a disc without
/// tracks keeps its files.
pub proof fn law_snapshot_writes_the_tracks(d: DiscDetail)
    requires
        is_plain(d.disc.media_type.rom_extension@),
        forall|i: int|
            0 <= i < d.files@.len() ==> file_ok(
                #[trigger] d.files@[i],
                d.disc.media_type.rom_extension@,
            ),
    ensures
        disc_update::update_of(disc_snapshot::snapshot(d)).files == (if disc_snapshot::track_count(d.files@) == 0 {
            None
        } else {
            Some(kept_files(d.files@))
        }),
{
    let fs = d.files@;
    let ext = d.disc.media_type.rom_extension@;
    let total = disc_snapshot::track_count(fs);
    let rows = disc_snapshot::rom_lines(fs, total, ext);
    lemma_snapshot_fields(d);
    lemma_rom_lines(fs, total, ext);
    lemma_lines_of_joined(rows);
    hex_dump::lemma_unix_newlines_of_clean(disc_snapshot::track_list(fs, ext));
}

} // verus!
