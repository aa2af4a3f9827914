//! A stored disc as a flat snapshot, in the form in which changes are applied to it.

use vstd::prelude::*;

use crate::json::{self, Json, JsonObject, JsonView};
use crate::models::{
    Disc, DiscDetail, DiscRingCodeLayer, File, Language, ProtectionRange, Region, RingEntryView,
};
use crate::naming::{self, build_simple_track_name, simplify_cue};
use crate::numbers::{self, write_i64};
use crate::order;
use crate::services::disc_service::{
    self, normalize_comma_separated, position_of_layer, ring_entry_order, str_or_empty,
    write_or_empty,
};
use crate::services::dump_text::{
    self, format_hex_dump_snapshot, format_pvd_hex_snapshot, write_hex,
};
use crate::text::{self, cat3, join_strings, str_trim};

verus! {

/// A text, or null.
pub open spec fn opt_value(s: Option<Seq<char>>) -> JsonView {
    match s {
        Some(t) => JsonView::Str(t),
        None => JsonView::Null,
    }
}

/// A list of texts.
pub open spec fn text_values(v: Seq<Seq<char>>) -> JsonView {
    JsonView::Arr(v.map_values(|s: Seq<char>| JsonView::Str(s)))
}

/// A list of integers.
pub open spec fn int_values(v: Seq<i32>) -> JsonView {
    JsonView::Arr(v.map_values(|n: i32| JsonView::Int(n as int)))
}

/// A text, or null.
pub fn json_opt(s: &Option<String>) -> (r: Json)
    ensures
        r@ == opt_value(text::opt_text(*s)),
{
    match s {
        Some(t) => Json::Text(t.clone()),
        None => Json::Null,
    }
}

/// A list of texts.
pub fn json_texts(v: &Vec<String>) -> (r: Json)
    ensures
        r@ == text_values(text::texts(v@)),
{
    let mut out: Vec<Json> = Vec::new();
    let ghost all = text::texts(v@).map_values(|s: Seq<char>| JsonView::Str(s));
    assert(json::json_views(out@) =~= all.take(0));
    for i in 0..v.len()
        invariant
            all == text::texts(v@).map_values(|s: Seq<char>| JsonView::Str(s)),
            json::json_views(out@) == all.take(i as int),
    {
        let x = Json::Text(v[i].clone());
        proof {
            json::lemma_json_views_push(out@, x);
            assert(all[i as int] == x@);
            assert(all.take(i + 1) =~= all.take(i as int).push(all[i as int]));
        }
        out.push(x);
    }
    assert(all.take(all.len() as int) =~= all);
    Json::Array(out)
}

fn json_ints(v: &Vec<i32>) -> (r: Json)
    ensures
        r@ == int_values(v@),
{
    let mut out: Vec<Json> = Vec::new();
    let ghost all = v@.map_values(|n: i32| JsonView::Int(n as int));
    assert(json::json_views(out@) =~= all.take(0));
    for i in 0..v.len()
        invariant
            all == v@.map_values(|n: i32| JsonView::Int(n as int)),
            json::json_views(out@) == all.take(i as int),
    {
        let x = Json::number(v[i] as i64);
        proof {
            json::lemma_json_views_push(out@, x);
            assert(all[i as int] == x@);
            assert(all.take(i + 1) =~= all.take(i as int).push(all[i as int]));
        }
        out.push(x);
    }
    assert(all.take(all.len() as int) =~= all);
    Json::Array(out)
}

// ── Pressings ──────────────────────────────────────────────────────────────

/// The normalized items of a stored list.
pub open spec fn stored_list(s: Seq<char>) -> Seq<char> {
    text::join(disc_service::csv_sorted(s), ", "@)
}

/// A layer of a pressing, empty where none is stored.
pub open spec fn layer_value(l: Option<DiscRingCodeLayer>) -> JsonView {
    let e = Seq::<(Seq<char>, JsonView)>::empty();
    let e = json::put(
        e,
        "mastering_code"@,
        JsonView::Str(
            match l {
                Some(x) => disc_service::text_or(x.mastering_code),
                None => Seq::empty(),
            },
        ),
    );
    let e = json::put(
        e,
        "mastering_sid"@,
        JsonView::Str(
            match l {
                Some(x) => disc_service::text_or(x.mastering_sid),
                None => Seq::empty(),
            },
        ),
    );
    let e = json::put(
        e,
        "mould_sids"@,
        JsonView::Str(
            match l {
                Some(x) => stored_list(x.mould_sids@),
                None => Seq::empty(),
            },
        ),
    );
    let e = json::put(
        e,
        "toolstamps"@,
        JsonView::Str(
            match l {
                Some(x) => stored_list(x.toolstamps@),
                None => Seq::empty(),
            },
        ),
    );
    let e = json::put(
        e,
        "additional_moulds"@,
        JsonView::Str(
            match l {
                Some(x) => stored_list(x.additional_moulds@),
                None => Seq::empty(),
            },
        ),
    );
    JsonView::Obj(e)
}

/// The layers of a pressing, the label side included.
pub open spec fn layer_values(layers: Seq<DiscRingCodeLayer>, n: nat) -> Seq<JsonView> {
    Seq::new(n, |i: int| layer_value(disc_service::find_layer(layers, i)))
}

/// A pressing.
pub open spec fn ring_value(e: RingEntryView, layers: nat) -> JsonView {
    let o = Seq::<(Seq<char>, JsonView)>::empty();
    let o = json::put(o, "id"@, JsonView::Int(e.id as int));
    let o = json::put(o, "offset_value"@, JsonView::Str(disc_service::number_or_empty(e.offset_value)));
    let o = json::put(o, "offset_extra_value"@, JsonView::Str(disc_service::number_or_empty(e.offset_extra_value)));
    let o = json::put(o, "sample_start"@, JsonView::Str(disc_service::number_or_empty(e.sample_data_start)));
    let o = json::put(o, "comment"@, JsonView::Str(disc_service::text_or(e.comment)));
    let o = json::put(o, "layers"@, JsonView::Arr(layer_values(e.layers@, layers)));
    JsonView::Obj(o)
}

/// The pressings in order.
pub open spec fn ring_values(es: Seq<RingEntryView>, layers: nat) -> Seq<JsonView> {
    order::arranged(es, order::stable_order(disc_service::stored_ring_keys(es, layers))).map_values(
        |e: RingEntryView| ring_value(e, layers),
    )
}

fn build_layer(layers: &Vec<DiscRingCodeLayer>, i: u32) -> (r: Json)
    ensures
        r@ == layer_value(disc_service::find_layer(layers@, i as int)),
{
    let mut o = JsonObject::new();
    match position_of_layer(layers, i as i64) {
        Some(k) => {
            let l = &layers[k];
            o.insert("mastering_code", Json::text(str_or_empty(&l.mastering_code)));
            o.insert("mastering_sid", Json::text(str_or_empty(&l.mastering_sid)));
            o.insert("mould_sids", Json::Text(normalize_comma_separated(l.mould_sids.as_str())));
            o.insert("toolstamps", Json::Text(normalize_comma_separated(l.toolstamps.as_str())));
            o.insert(
                "additional_moulds",
                Json::Text(normalize_comma_separated(l.additional_moulds.as_str())),
            );
        },
        None => {
            o.insert("mastering_code", Json::Text(String::new()));
            o.insert("mastering_sid", Json::Text(String::new()));
            o.insert("mould_sids", Json::Text(String::new()));
            o.insert("toolstamps", Json::Text(String::new()));
            o.insert("additional_moulds", Json::Text(String::new()));
        },
    }
    Json::Object(o)
}

fn build_ring(e: &RingEntryView, layers: u32) -> (r: Json)
    ensures
        r@ == ring_value(*e, layers as nat),
{
    let mut list: Vec<Json> = Vec::new();
    let ghost all = layer_values(e.layers@, layers as nat);
    assert(json::json_views(list@) =~= all.take(0));
    for i in 0..layers
        invariant
            all == layer_values(e.layers@, layers as nat),
            json::json_views(list@) == all.take(i as int),
    {
        let x = build_layer(&e.layers, i);
        proof {
            json::lemma_json_views_push(list@, x);
            assert(all.take(i + 1) =~= all.take(i as int).push(all[i as int]));
        }
        list.push(x);
    }
    assert(all.take(all.len() as int) =~= all);
    let mut o = JsonObject::new();
    o.insert("id", Json::number(e.id as i64));
    o.insert("offset_value", Json::Text(write_or_empty(&e.offset_value)));
    o.insert("offset_extra_value", Json::Text(write_or_empty(&e.offset_extra_value)));
    o.insert("sample_start", Json::Text(write_or_empty(&e.sample_data_start)));
    o.insert("comment", Json::text(str_or_empty(&e.comment)));
    o.insert("layers", Json::Array(list));
    Json::Object(o)
}

fn build_rings(es: &Vec<RingEntryView>, layers: u32) -> (r: Json)
    ensures
        r@ == JsonView::Arr(ring_values(es@, layers as nat)),
{
    let order = ring_entry_order(es, layers as usize);
    let ghost sorted = order::arranged(es@, order::positions(order@));
    let ghost all = ring_values(es@, layers as nat);
    let mut list: Vec<Json> = Vec::new();
    assert(json::json_views(list@) =~= all.take(0));
    for i in 0..order.len()
        invariant
            order@.len() == es@.len(),
            forall|k: int| 0 <= k < order@.len() ==> (#[trigger] order@[k]) < es@.len(),
            sorted == order::arranged(es@, order::positions(order@)),
            all == sorted.map_values(|e: RingEntryView| ring_value(e, layers as nat)),
            json::json_views(list@) == all.take(i as int),
    {
        let k = order[i];
        let x = build_ring(&es[k], layers);
        proof {
            assert(order::positions(order@)[i as int] == k as int);
            json::lemma_json_views_push(list@, x);
            assert(all[i as int] == x@);
            assert(all.take(i + 1) =~= all.take(i as int).push(all[i as int]));
        }
        list.push(x);
    }
    assert(all.take(all.len() as int) =~= all);
    Json::Array(list)
}

// ── Files ──────────────────────────────────────────────────────────────────

/// How many files are tracks.
pub open spec fn track_count(fs: Seq<File>) -> nat
    decreases fs.len(),
{
    if fs.len() == 0 {
        0
    } else {
        track_count(fs.drop_last()) + if fs.last().track_number is Some {
            1nat
        } else {
            0nat
        }
    }
}

/// The `rom` line of a track.
pub open spec fn rom_line(f: File, total: nat, ext: Seq<char>) -> Seq<char> {
    "<rom name=\""@ + naming::simple_track_name(disc_service::text_or(f.track_number), total, ext) + "\" size=\""@
        + numbers::int_text(f.size as int) + "\" crc=\""@ + f.crc32@ + "\" md5=\""@ + f.md5@ + "\" sha1=\""@
        + f.sha1@ + "\" />"@
}

/// The `rom` lines of the tracks.
pub open spec fn rom_lines(fs: Seq<File>, total: nat, ext: Seq<char>) -> Seq<Seq<char>>
    decreases fs.len(),
{
    if fs.len() == 0 {
        Seq::empty()
    } else {
        let before = rom_lines(fs.drop_last(), total, ext);
        if fs.last().track_number is Some {
            before.push(rom_line(fs.last(), total, ext))
        } else {
            before
        }
    }
}

/// The track list of a dump.
pub open spec fn track_list(fs: Seq<File>, ext: Seq<char>) -> Seq<char> {
    text::join(rom_lines(fs, track_count(fs), ext), "\n"@)
}

/// Count the files that are tracks.
pub fn count_tracks(files: &Vec<File>) -> (r: usize)
    ensures
        r == track_count(files@),
{
    let mut total: usize = 0;
    assert(files@.take(0) =~= Seq::empty());
    for i in 0..files.len()
        invariant
            total == track_count(files@.take(i as int)),
            total <= i,
    {
        assert(files@.take(i + 1).drop_last() =~= files@.take(i as int));
        if files[i].track_number.is_some() {
            total = total + 1;
        }
    }
    assert(files@.take(files@.len() as int) =~= files@);
    total
}

fn build_track_list(files: &Vec<File>, ext: &str) -> (r: String)
    ensures
        r@ == track_list(files@, ext@),
{
    let total = count_tracks(files);
    let mut out: Vec<String> = Vec::new();
    assert(files@.take(0) =~= Seq::empty());
    assert(text::texts(out@) =~= rom_lines(files@.take(0), total as nat, ext@));
    for i in 0..files.len()
        invariant
            text::texts(out@) == rom_lines(files@.take(i as int), total as nat, ext@),
    {
        let f = &files[i];
        let ghost before = out@;
        assert(files@.take(i + 1).drop_last() =~= files@.take(i as int));
        if f.track_number.is_some() {
            let name = build_simple_track_name(str_or_empty(&f.track_number), total, ext);
            let mut line = cat3("<rom name=\"", name.as_str(), "\" size=\"");
            line.append(write_i64(f.size).as_str());
            line.append("\" crc=\"");
            line.append(f.crc32.as_str());
            line.append("\" md5=\"");
            line.append(f.md5.as_str());
            line.append("\" sha1=\"");
            line.append(f.sha1.as_str());
            line.append("\" />");
            out.push(line);
            assert(text::texts(out@) =~= text::texts(before).push(line@));
        }
    }
    assert(files@.take(files@.len() as int) =~= files@);
    join_strings(&out, "\n")
}

// ── The snapshot ───────────────────────────────────────────────────────────

/// A sector range.
pub open spec fn range_value(p: ProtectionRange) -> JsonView {
    let o = Seq::<(Seq<char>, JsonView)>::empty();
    let o = json::put(o, "start"@, JsonView::Int(p.range_start as int));
    let o = json::put(o, "end"@, JsonView::Int(p.range_end as int));
    JsonView::Obj(o)
}

/// The sector ranges.
pub open spec fn range_values(v: Seq<ProtectionRange>) -> Seq<JsonView> {
    v.map_values(|p: ProtectionRange| range_value(p))
}

/// The codes of the regions.
pub open spec fn region_codes(v: Seq<Region>) -> Seq<Seq<char>> {
    v.map_values(|r: Region| text::trim(r.code@))
}

/// The codes of the languages.
pub open spec fn language_codes(v: Seq<Language>) -> Seq<Seq<char>> {
    v.map_values(|l: Language| text::trim(l.code@))
}

/// A dump of optional bytes.
pub open spec fn dump_value(v: Option<Vec<u8>>) -> JsonView {
    match v {
        Some(b) => JsonView::Str(dump_text::dump_text(b@, 0)),
        None => JsonView::Null,
    }
}

/// A dump of an optional volume descriptor.
pub open spec fn pvd_value(v: Option<Vec<u8>>) -> JsonView {
    match v {
        Some(b) => JsonView::Str(dump_text::dump_text(dump_text::pvd_block(b@), 0x0320)),
        None => JsonView::Null,
    }
}

/// The digits of optional bytes.
pub open spec fn hex_text_value(v: Option<Vec<u8>>) -> JsonView {
    match v {
        Some(b) => JsonView::Str(dump_text::hex_text(b@)),
        None => JsonView::Null,
    }
}

/// An integer, or null.
pub open spec fn opt_int_value(v: Option<i32>) -> JsonView {
    match v {
        Some(n) => JsonView::Int(n as int),
        None => JsonView::Null,
    }
}

/// The cuesheet with simple track names, or null.
pub open spec fn cue_value(cue: Option<String>, ext: Seq<char>) -> JsonView {
    match cue {
        Some(c) => if c@.len() > 0 {
            JsonView::Str(naming::renamed_cue(c@, None, ext))
        } else {
            JsonView::Null
        },
        None => JsonView::Null,
    }
}

/// The track list, or null where there is none.
pub open spec fn dat_value(fs: Seq<File>, ext: Seq<char>) -> JsonView {
    let t = track_list(fs, ext);
    if t.len() == 0 {
        JsonView::Null
    } else {
        JsonView::Str(t)
    }
}

/// The layer breaks; none stored is none.
pub open spec fn layerbreak_values(v: Option<Vec<i32>>) -> JsonView {
    match v {
        Some(l) => int_values(l@),
        None => JsonView::Arr(Seq::empty()),
    }
}

/// The entries that name a disc.
pub open spec fn name_entries(x: Disc) -> Seq<(Seq<char>, JsonView)> {
    let o = Seq::<(Seq<char>, JsonView)>::empty();
    let o = json::put(o, "system_code"@, JsonView::Str(x.system_code@));
    let o = json::put(o, "media_type"@, JsonView::Str(x.media_type.code@));
    let o = json::put(o, "title"@, JsonView::Str(x.title@));
    let o = json::put(o, "category"@, JsonView::Str(x.category@));
    let o = json::put(o, "title_foreign"@, opt_value(text::opt_text(x.title_foreign)));
    let o = json::put(o, "disc_number"@, opt_value(text::opt_text(x.disc_number)));
    let o = json::put(o, "disc_title"@, opt_value(text::opt_text(x.disc_title)));
    json::put(o, "filename_suffix"@, opt_value(text::opt_text(x.filename_suffix)))
}

/// The entries that describe a release.
pub open spec fn with_release_entries(o: Seq<(Seq<char>, JsonView)>, x: Disc) -> Seq<
    (Seq<char>, JsonView),
> {
    let o = json::put(o, "serial"@, text_values(text::texts(x.serial@)));
    let o = json::put(o, "version"@, opt_value(text::opt_text(x.version)));
    let o = json::put(o, "edition"@, text_values(text::texts(x.edition@)));
    let o = json::put(o, "barcode"@, text_values(text::texts(x.barcode@)));
    let o = json::put(o, "comments"@, opt_value(text::opt_text(x.comments)));
    let o = json::put(o, "contents"@, opt_value(text::opt_text(x.contents)));
    let o = json::put(o, "error_count"@, opt_int_value(x.error_count));
    let o = json::put(o, "exe_date"@, opt_value(text::opt_text(x.exe_date)));
    let o = json::put(o, "edc"@, JsonView::Bool(x.edc));
    json::put(o, "layerbreaks"@, layerbreak_values(x.layerbreaks))
}

/// The entries that hold binary data and protection.
pub open spec fn with_data_entries(o: Seq<(Seq<char>, JsonView)>, x: Disc) -> Seq<
    (Seq<char>, JsonView),
> {
    let o = json::put(o, "pvd"@, pvd_value(x.pvd));
    let o = json::put(o, "pic"@, dump_value(x.pic));
    let o = json::put(o, "bca"@, dump_value(x.bca));
    let o = json::put(o, "header"@, dump_value(x.header));
    let o = json::put(o, "protection"@, opt_value(text::opt_text(x.protection)));
    let o = json::put(o, "sbi"@, opt_value(text::opt_text(x.sbi)));
    let o = json::put(o, "disc_id"@, opt_value(text::opt_text(x.disc_id)));
    let o = json::put(o, "disc_key"@, hex_text_value(x.disc_key));
    json::put(o, "universal_hash"@, hex_text_value(x.universal_hash))
}

/// The entries of the snapshot of a disc.
pub open spec fn snapshot_entries(d: DiscDetail) -> Seq<(Seq<char>, JsonView)> {
    let x = d.disc;
    let ext = x.media_type.rom_extension@;
    let layers = (x.media_type.layer_count + 1) as nat;
    let o = with_data_entries(with_release_entries(name_entries(x), x), x);
    let o = json::put(o, "cuesheet"@, cue_value(x.cue, ext));
    let o = json::put(o, "status"@, JsonView::Str(x.status.name()));
    let o = json::put(o, "regions"@, text_values(region_codes(d.regions@)));
    let o = json::put(o, "languages"@, text_values(language_codes(d.languages@)));
    let o = json::put(o, "ring_codes"@, JsonView::Arr(ring_values(d.ring_entries@, layers)));
    let o = json::put(o, "sector_ranges"@, JsonView::Arr(range_values(d.sector_ranges@)));
    json::put(o, "dat"@, dat_value(d.files@, ext))
}

/// The snapshot of a disc.
pub open spec fn snapshot(d: DiscDetail) -> JsonView {
    JsonView::Obj(snapshot_entries(d))
}

fn build_ranges(v: &Vec<ProtectionRange>) -> (r: Json)
    ensures
        r@ == JsonView::Arr(range_values(v@)),
{
    let mut list: Vec<Json> = Vec::new();
    let ghost all = range_values(v@);
    assert(json::json_views(list@) =~= all.take(0));
    for i in 0..v.len()
        invariant
            all == range_values(v@),
            json::json_views(list@) == all.take(i as int),
    {
        let mut o = JsonObject::new();
        o.insert("start", Json::number(v[i].range_start as i64));
        o.insert("end", Json::number(v[i].range_end as i64));
        let x = Json::Object(o);
        proof {
            json::lemma_json_views_push(list@, x);
            assert(all[i as int] == x@);
            assert(all.take(i + 1) =~= all.take(i as int).push(all[i as int]));
        }
        list.push(x);
    }
    assert(all.take(all.len() as int) =~= all);
    Json::Array(list)
}

fn build_region_codes(v: &Vec<Region>) -> (r: Vec<String>)
    ensures
        text::texts(r@) == region_codes(v@),
{
    let mut out: Vec<String> = Vec::new();
    for i in 0..v.len()
        invariant
            text::texts(out@) == region_codes(v@).take(i as int),
    {
        let ghost before = out@;
        let t = str_trim(v[i].code.as_str());
        out.push(t);
        assert(text::texts(out@) =~= text::texts(before).push(t@));
        assert(region_codes(v@).take(i + 1) =~= region_codes(v@).take(i as int).push(t@));
    }
    assert(region_codes(v@).take(v@.len() as int) =~= region_codes(v@));
    out
}

fn build_language_codes(v: &Vec<Language>) -> (r: Vec<String>)
    ensures
        text::texts(r@) == language_codes(v@),
{
    let mut out: Vec<String> = Vec::new();
    for i in 0..v.len()
        invariant
            text::texts(out@) == language_codes(v@).take(i as int),
    {
        let ghost before = out@;
        let t = str_trim(v[i].code.as_str());
        out.push(t);
        assert(text::texts(out@) =~= text::texts(before).push(t@));
        assert(language_codes(v@).take(i + 1) =~= language_codes(v@).take(i as int).push(t@));
    }
    assert(language_codes(v@).take(v@.len() as int) =~= language_codes(v@));
    out
}

fn build_dump(v: &Option<Vec<u8>>) -> (r: Json)
    ensures
        r@ == dump_value(*v),
{
    match v {
        Some(b) => {
            let n: usize = b.len();
            Json::Text(format_hex_dump_snapshot(b, 0))
        },
        None => Json::Null,
    }
}

fn build_pvd(v: &Option<Vec<u8>>) -> (r: Json)
    ensures
        r@ == pvd_value(*v),
{
    match v {
        Some(b) => Json::Text(format_pvd_hex_snapshot(b)),
        None => Json::Null,
    }
}

fn build_hex(v: &Option<Vec<u8>>) -> (r: Json)
    ensures
        r@ == hex_text_value(*v),
{
    match v {
        Some(b) => Json::Text(write_hex(b)),
        None => Json::Null,
    }
}

fn build_cue(cue: &Option<String>, ext: &str) -> (r: Json)
    ensures
        r@ == cue_value(*cue, ext@),
{
    match cue {
        Some(c) => if c.as_str().is_empty() {
            Json::Null
        } else {
            Json::Text(simplify_cue(c.as_str(), ext))
        },
        None => Json::Null,
    }
}

fn build_names(x: &Disc) -> (o: JsonObject)
    ensures
        o@ == name_entries(*x),
{
    let mut o = JsonObject::new();
    o.insert("system_code", Json::Text(x.system_code.clone()));
    o.insert("media_type", Json::Text(x.media_type.code.clone()));
    o.insert("title", Json::Text(x.title.clone()));
    o.insert("category", Json::Text(x.category.clone()));
    o.insert("title_foreign", json_opt(&x.title_foreign));
    o.insert("disc_number", json_opt(&x.disc_number));
    o.insert("disc_title", json_opt(&x.disc_title));
    o.insert("filename_suffix", json_opt(&x.filename_suffix));
    o
}

fn add_release(o: &mut JsonObject, x: &Disc)
    ensures
        final(o)@ == with_release_entries(old(o)@, *x),
{
    o.insert("serial", json_texts(&x.serial));
    o.insert("version", json_opt(&x.version));
    o.insert("edition", json_texts(&x.edition));
    o.insert("barcode", json_texts(&x.barcode));
    o.insert("comments", json_opt(&x.comments));
    o.insert("contents", json_opt(&x.contents));
    let error_count = match x.error_count {
        Some(n) => Json::number(n as i64),
        None => Json::Null,
    };
    o.insert("error_count", error_count);
    o.insert("exe_date", json_opt(&x.exe_date));
    o.insert("edc", Json::Bool(x.edc));
    let layerbreaks = match &x.layerbreaks {
        Some(l) => json_ints(l),
        None => Json::Array(Vec::new()),
    };
    assert(layerbreaks@ == layerbreak_values(x.layerbreaks));
    o.insert("layerbreaks", layerbreaks);
}

fn add_data(o: &mut JsonObject, x: &Disc)
    ensures
        final(o)@ == with_data_entries(old(o)@, *x),
{
    o.insert("pvd", build_pvd(&x.pvd));
    o.insert("pic", build_dump(&x.pic));
    o.insert("bca", build_dump(&x.bca));
    o.insert("header", build_dump(&x.header));
    o.insert("protection", json_opt(&x.protection));
    o.insert("sbi", json_opt(&x.sbi));
    o.insert("disc_id", json_opt(&x.disc_id));
    o.insert("disc_key", build_hex(&x.disc_key));
    o.insert("universal_hash", build_hex(&x.universal_hash));
}

/// The snapshot of a disc, in the form that updates are read from.
pub fn build_snapshot_from_disc(detail: &DiscDetail) -> (r: Json)
    requires
        detail.disc.media_type.layer_count < u32::MAX,
    ensures
        r@ == snapshot(*detail),
{
    let x = &detail.disc;
    let ext = x.media_type.rom_extension.as_str();
    let layers: u32 = x.media_type.layer_count + 1;
    let mut o = build_names(x);
    add_release(&mut o, x);
    add_data(&mut o, x);
    o.insert("cuesheet", build_cue(&x.cue, ext));
    o.insert("status", Json::text(x.status.as_str()));
    o.insert("regions", json_texts(&build_region_codes(&detail.regions)));
    o.insert("languages", json_texts(&build_language_codes(&detail.languages)));
    o.insert("ring_codes", build_rings(&detail.ring_entries, layers));
    o.insert("sector_ranges", build_ranges(&detail.sector_ranges));
    let dat = build_track_list(&detail.files, ext);
    let dat = if dat.as_str().is_empty() {
        Json::Null
    } else {
        Json::Text(dat)
    };
    o.insert("dat", dat);
    Json::Object(o)
}

} // verus!
