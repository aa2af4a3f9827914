//! What a resolved snapshot writes to the tables of a disc.

use vstd::prelude::*;

use crate::error::{AppError, ErrorView, bad_request};
use crate::json::{self, Json, JsonView, array_texts};
use crate::models::{self, DiscStatus, extract_track_from_filename};
use crate::numbers::{self, read_i32, read_i64, write_i64};
use crate::services::disc_service::{self, normalize_comma_separated, parse_text_array};
use crate::services::hex_dump::{
    self, normalize_newlines, parse_binary_hex_input, parse_hex_text_bytes, parse_pvd_hex_dump,
    parse_universal_hash_bytes,
};
use crate::services::validation::{self, chars_attribute};
use crate::text::{
    self, cat2, cat3, cat5, chars_lines, chars_of, chars_start_with, chars_trim, join_strings,
    str_eq, str_trim,
};

verus! {

// ── Fields ─────────────────────────────────────────────────────────────────

/// A text that is not empty.
pub open spec fn filled(v: JsonView) -> Option<Seq<char>> {
    match v {
        JsonView::Str(s) => if s.len() > 0 {
            Some(s)
        } else {
            None
        },
        _ => None,
    }
}

/// A text that is not empty, with line feeds as line endings.
pub open spec fn filled_lines(v: JsonView) -> Option<Seq<char>> {
    match v {
        JsonView::Str(s) => if text::unix_newlines(s).len() > 0 {
            Some(text::unix_newlines(s))
        } else {
            None
        },
        _ => None,
    }
}

/// A text that is not blank, without white space at either end.
pub open spec fn filled_trim(v: JsonView) -> Option<Seq<char>> {
    match v {
        JsonView::Str(s) => if text::trim(s).len() > 0 {
            Some(text::trim(s))
        } else {
            None
        },
        _ => None,
    }
}

/// A text that is not empty.
pub fn read_filled(v: &Json) -> (r: Option<String>)
    ensures
        text::opt_text(r) == filled(v@),
{
    match v {
        Json::Text(s) => if s.as_str().is_empty() {
            None
        } else {
            Some(s.clone())
        },
        _ => None,
    }
}

/// A text that is not empty, with line feeds as line endings.
pub fn read_filled_lines(v: &Json) -> (r: Option<String>)
    ensures
        text::opt_text(r) == filled_lines(v@),
{
    match v {
        Json::Text(s) => {
            let t = normalize_newlines(s.as_str());
            if t.as_str().is_empty() {
                None
            } else {
                Some(t)
            }
        },
        _ => None,
    }
}

/// A text that is not blank, without white space at either end.
pub fn read_filled_trim(v: &Json) -> (r: Option<String>)
    ensures
        text::opt_text(r) == filled_trim(v@),
{
    match v {
        Json::Text(s) => {
            let t = str_trim(s.as_str());
            if t.as_str().is_empty() {
                None
            } else {
                Some(t)
            }
        },
        _ => None,
    }
}

/// A text as it stands.
pub open spec fn plain(v: JsonView) -> Option<Seq<char>> {
    json::as_text(v)
}

fn read_plain(v: &Json) -> (r: Option<String>)
    ensures
        text::opt_text(r) == plain(v@),
{
    match v {
        Json::Text(s) => Some(s.clone()),
        _ => None,
    }
}

/// A text, or `default` where there is none.
pub open spec fn text_or_default(v: JsonView, default: Seq<char>) -> Seq<char> {
    match v {
        JsonView::Str(s) => s,
        _ => default,
    }
}

fn read_or_default(v: &Json, default: &str) -> (r: String)
    ensures
        r@ == text_or_default(v@, default@),
{
    match v {
        Json::Text(s) => s.clone(),
        _ => String::from_str(default),
    }
}

/// The bytes of a dump, or the refusal that names the field.
pub open spec fn dump_field(v: JsonView, label: Seq<char>) -> Result<Option<Seq<u8>>, ErrorView> {
    match filled_lines(v) {
        None => Ok(None),
        Some(s) => match hex_dump::binary_input(s) {
            Ok(b) => Ok(Some(b)),
            Err(e) => Err(ErrorView::BadRequest(label + e)),
        },
    }
}

/// The bytes of a volume descriptor, of which 82 are stored.
pub open spec fn pvd_field(v: JsonView) -> Result<Option<Seq<u8>>, ErrorView> {
    match dump_field(v, "PVD: "@) {
        Ok(Some(b)) => Ok(
            Some(
                if b.len() > 82 {
                    b.take(82)
                } else {
                    b
                },
            ),
        ),
        other => other,
    }
}

fn read_dump(v: &Json, label: &str) -> (r: Result<Option<Vec<u8>>, AppError>)
    ensures
        hex_dump::field_result(r) == dump_field(v@, label@),
{
    match read_filled_lines(v) {
        None => Ok(None),
        Some(s) => match parse_binary_hex_input(s.as_str()) {
            Ok(b) => Ok(Some(b)),
            Err(e) => Err(AppError::BadRequest(cat2(label, e.as_str()))),
        },
    }
}

fn read_pvd(v: &Json) -> (r: Result<Option<Vec<u8>>, AppError>)
    ensures
        hex_dump::field_result(r) == pvd_field(v@),
{
    match read_filled_lines(v) {
        None => Ok(None),
        Some(s) => match parse_pvd_hex_dump(s.as_str()) {
            Ok(b) => Ok(Some(b)),
            Err(e) => Err(AppError::BadRequest(cat2("PVD: ", e.as_str()))),
        },
    }
}

/// A 64-bit integer cut down to 32 bits.
pub open spec fn low_bits(n: int) -> i32 {
    n as i32
}

fn cut(n: i64) -> (r: i32)
    ensures
        r == low_bits(n as int),
{
    #[verifier::truncate]
    (n as i32)
}

/// The integers of a list.
pub open spec fn list_numbers(list: Seq<JsonView>) -> Seq<i32>
    decreases list.len(),
{
    if list.len() == 0 {
        Seq::empty()
    } else {
        let before = list_numbers(list.drop_last());
        match json::as_int(list.last()) {
            Some(n) => before.push(low_bits(n)),
            None => before,
        }
    }
}

/// The layer breaks, if there are any.
pub open spec fn layerbreaks_field(v: JsonView) -> Option<Seq<i32>> {
    match v {
        JsonView::Arr(list) => if list_numbers(list).len() == 0 {
            None
        } else {
            Some(list_numbers(list))
        },
        _ => None,
    }
}

/// The value of an optional list of numbers.
pub open spec fn opt_numbers(v: Option<Vec<i32>>) -> Option<Seq<i32>> {
    match v {
        Some(x) => Some(x@),
        None => None,
    }
}

/// The value of optional bytes.
pub open spec fn opt_bytes(v: Option<Vec<u8>>) -> Option<Seq<u8>> {
    match v {
        Some(x) => Some(x@),
        None => None,
    }
}

fn read_layerbreaks(v: &Json) -> (r: Option<Vec<i32>>)
    ensures
        opt_numbers(r) == layerbreaks_field(v@),
{
    match v {
        Json::Array(list) => {
            let ghost all = json::json_views(list@);
            let mut out: Vec<i32> = Vec::new();
            proof {
                json::lemma_json_views(list@);
                assert(out@ =~= list_numbers(all.take(0)));
            }
            for i in 0..list.len()
                invariant
                    all == json::json_views(list@),
                    all.len() == list@.len(),
                    forall|k: int| 0 <= k < list@.len() ==> #[trigger] all[k] == list@[k]@,
                    out@ == list_numbers(all.take(i as int)),
            {
                proof {
                    let t = all.take(i + 1);
                    assert(t.drop_last() =~= all.take(i as int));
                    assert(t.last() == list@[i as int]@);
                }
                if let Some(n) = list[i].as_i64() {
                    out.push(cut(n));
                }
            }
            assert(all.take(all.len() as int) =~= all);
            if out.len() == 0 {
                None
            } else {
                Some(out)
            }
        },
        _ => None,
    }
}

/// The status to store: the one named, or unverified.
pub open spec fn status_field(v: JsonView) -> DiscStatus {
    let s = json::text_or_empty(v);
    if s == "Disabled"@ {
        DiscStatus::Disabled
    } else if s == "Questionable"@ {
        DiscStatus::Questionable
    } else if s == "Verified"@ {
        DiscStatus::Verified
    } else {
        DiscStatus::Unverified
    }
}

fn read_status(v: &Json) -> (r: DiscStatus)
    ensures
        r == status_field(v@),
{
    let s = v.str_or_empty();
    if str_eq(s, "Disabled") {
        DiscStatus::Disabled
    } else if str_eq(s, "Questionable") {
        DiscStatus::Questionable
    } else if str_eq(s, "Verified") {
        DiscStatus::Verified
    } else {
        DiscStatus::Unverified
    }
}

/// A status is read back from its name.
pub proof fn law_status_reads_back(s: DiscStatus)
    ensures
        status_field(JsonView::Str(s.name())) == s,
{
    reveal_strlit("Disabled");
    reveal_strlit("Questionable");
    reveal_strlit("Unverified");
    reveal_strlit("Verified");
    assert("Disabled"@.len() == 8 && "Questionable"@.len() == 12 && "Unverified"@.len() == 10
        && "Verified"@.len() == 8);
    assert("Disabled"@[0] == 'D' && "Verified"@[0] == 'V');
}

// ── Sector ranges ──────────────────────────────────────────────────────────

/// What becomes of the stored sector ranges.
#[derive(Debug)]
pub enum SectorRangeUpdate {
    Keep,
    Clear,
    Replace(String),
}

/// The value of a [`SectorRangeUpdate`].
pub enum SectorRangeView {
    Keep,
    Clear,
    Replace(Seq<char>),
}

impl View for SectorRangeUpdate {
    type V = SectorRangeView;

    open spec fn view(&self) -> SectorRangeView {
        match self {
            SectorRangeUpdate::Keep => SectorRangeView::Keep,
            SectorRangeUpdate::Clear => SectorRangeView::Clear,
            SectorRangeUpdate::Replace(s) => SectorRangeView::Replace(s@),
        }
    }
}

/// The range literals of the elements that have a start and an end.
pub open spec fn range_literals(list: Seq<JsonView>) -> Seq<Seq<char>>
    decreases list.len(),
{
    if list.len() == 0 {
        Seq::empty()
    } else {
        let before = range_literals(list.drop_last());
        let r = list.last();
        match (json::as_int(json::field(r, "start"@)), json::as_int(json::field(r, "end"@))) {
            (Some(a), Some(b)) => before.push(
                "\"["@ + numbers::int_text(a) + ","@ + numbers::int_text(b) + ")\""@,
            ),
            _ => before,
        }
    }
}

/// What becomes of the stored sector ranges: a list replaces them, an empty one
/// clears them, anything else leaves them.
pub open spec fn sector_ranges_field(v: JsonView) -> SectorRangeView {
    match v {
        JsonView::Arr(list) => if list.len() == 0 {
            SectorRangeView::Clear
        } else {
            SectorRangeView::Replace("{"@ + text::join(range_literals(list), ","@) + "}"@)
        },
        _ => SectorRangeView::Keep,
    }
}

fn read_sector_ranges(v: &Json) -> (r: SectorRangeUpdate)
    ensures
        r@ == sector_ranges_field(v@),
{
    match v {
        Json::Array(list) => {
            let ghost all = json::json_views(list@);
            proof {
                json::lemma_json_views(list@);
            }
            if list.len() == 0 {
                return SectorRangeUpdate::Clear;
            }
            let mut out: Vec<String> = Vec::new();
            assert(text::texts(out@) =~= range_literals(all.take(0)));
            for i in 0..list.len()
                invariant
                    all == json::json_views(list@),
                    all.len() == list@.len(),
                    forall|k: int| 0 <= k < list@.len() ==> #[trigger] all[k] == list@[k]@,
                    text::texts(out@) == range_literals(all.take(i as int)),
            {
                let ghost before = out@;
                proof {
                    let t = all.take(i + 1);
                    assert(t.drop_last() =~= all.take(i as int));
                    assert(t.last() == list@[i as int]@);
                }
                match (list[i].field("start").as_i64(), list[i].field("end").as_i64()) {
                    (Some(a), Some(b)) => {
                        let s = cat5(
                            "\"[",
                            write_i64(a).as_str(),
                            ",",
                            write_i64(b).as_str(),
                            ")\"",
                        );
                        out.push(s);
                        assert(text::texts(out@) =~= text::texts(before).push(s@));
                    },
                    _ => {},
                }
            }
            assert(all.take(all.len() as int) =~= all);
            let body = join_strings(&out, ",");
            SectorRangeUpdate::Replace(cat3("{", body.as_str(), "}"))
        },
        _ => SectorRangeUpdate::Keep,
    }
}

// ── Pressings ──────────────────────────────────────────────────────────────

/// A row of the layer table.
#[derive(Debug)]
pub struct LayerUpdate {
    pub layer: i32,
    pub mastering_code: Option<String>,
    pub mastering_sid: Option<String>,
    pub mould_sids: String,
    pub toolstamps: String,
    pub additional_moulds: String,
}

/// The value of a [`LayerUpdate`].
pub struct LayerView {
    pub layer: i32,
    pub mastering_code: Option<Seq<char>>,
    pub mastering_sid: Option<Seq<char>>,
    pub mould_sids: Seq<char>,
    pub toolstamps: Seq<char>,
    pub additional_moulds: Seq<char>,
}

impl View for LayerUpdate {
    type V = LayerView;

    open spec fn view(&self) -> LayerView {
        LayerView {
            layer: self.layer,
            mastering_code: text::opt_text(self.mastering_code),
            mastering_sid: text::opt_text(self.mastering_sid),
            mould_sids: self.mould_sids@,
            toolstamps: self.toolstamps@,
            additional_moulds: self.additional_moulds@,
        }
    }
}

/// The rows as values.
pub open spec fn layer_views(v: Seq<LayerUpdate>) -> Seq<LayerView> {
    v.map_values(|l: LayerUpdate| l@)
}

/// The row of layer `i`.
pub open spec fn layer_row(v: JsonView, i: nat) -> LayerView {
    LayerView {
        layer: low_bits(i as int),
        mastering_code: filled(json::field(v, "mastering_code"@)),
        mastering_sid: filled(json::field(v, "mastering_sid"@)),
        mould_sids: text::join(disc_service::csv_sorted(json::text_or_empty(json::field(v, "mould_sids"@))), ", "@),
        toolstamps: text::join(disc_service::csv_sorted(json::text_or_empty(json::field(v, "toolstamps"@))), ", "@),
        additional_moulds: text::join(disc_service::csv_sorted(json::text_or_empty(json::field(v, "additional_moulds"@))), ", "@),
    }
}

/// A row that says something.
pub open spec fn row_has_data(r: LayerView) -> bool {
    r.mastering_code is Some || r.mastering_sid is Some || r.mould_sids.len() > 0
        || r.toolstamps.len() > 0 || r.additional_moulds.len() > 0
}

/// The rows of the layers that say something.
pub open spec fn layer_rows(list: Seq<JsonView>) -> Seq<LayerView>
    decreases list.len(),
{
    if list.len() == 0 {
        Seq::empty()
    } else {
        let before = layer_rows(list.drop_last());
        let row = layer_row(list.last(), (list.len() - 1) as nat);
        if row_has_data(row) {
            before.push(row)
        } else {
            before
        }
    }
}

/// A row of the pressing table with the rows of its layers.
#[derive(Debug)]
pub struct RingUpdate {
    pub id: Option<i32>,
    pub offset_value: Option<i32>,
    pub offset_extra_value: Option<i32>,
    pub sample_start: Option<i32>,
    pub comment: Option<String>,
    pub layers: Vec<LayerUpdate>,
}

/// The value of a [`RingUpdate`].
pub struct RingView {
    pub id: Option<i32>,
    pub offset_value: Option<int>,
    pub offset_extra_value: Option<int>,
    pub sample_start: Option<int>,
    pub comment: Option<Seq<char>>,
    pub layers: Seq<LayerView>,
}

/// An optional machine integer as an integer.
pub open spec fn opt_int(n: Option<i32>) -> Option<int> {
    match n {
        Some(v) => Some(v as int),
        None => None,
    }
}

impl View for RingUpdate {
    type V = RingView;

    open spec fn view(&self) -> RingView {
        RingView {
            id: self.id,
            offset_value: opt_int(self.offset_value),
            offset_extra_value: opt_int(self.offset_extra_value),
            sample_start: opt_int(self.sample_start),
            comment: text::opt_text(self.comment),
            layers: layer_views(self.layers@),
        }
    }
}

/// The rows as values.
pub open spec fn ring_views(v: Seq<RingUpdate>) -> Seq<RingView> {
    v.map_values(|r: RingUpdate| r@)
}

/// The number that a text field holds.
pub open spec fn number_field(v: JsonView) -> Option<int> {
    match v {
        JsonView::Str(s) => numbers::i32_value(text::trim(s)),
        _ => None,
    }
}

/// An identifier.
pub open spec fn id_field(v: JsonView) -> Option<i32> {
    match json::as_int(v) {
        Some(n) => Some(low_bits(n)),
        None => None,
    }
}

/// The row of a pressing.
pub open spec fn ring_row(v: JsonView) -> RingView {
    RingView {
        id: id_field(json::field(v, "id"@)),
        offset_value: number_field(json::field(v, "offset_value"@)),
        offset_extra_value: number_field(json::field(v, "offset_extra_value"@)),
        sample_start: number_field(json::field(v, "sample_start"@)),
        comment: filled(json::field(v, "comment"@)),
        layers: layer_rows(json::list_or_empty(json::field(v, "layers"@))),
    }
}

/// The rows of a list of pressings.
pub open spec fn ring_rows(list: Seq<JsonView>) -> Seq<RingView> {
    list.map_values(|v: JsonView| ring_row(v))
}

fn read_number(v: &Json) -> (r: Option<i32>)
    ensures
        opt_int(r) == number_field(v@),
{
    match v {
        Json::Text(s) => {
            let c = chars_of(s.as_str());
            read_i32(chars_trim(&c))
        },
        _ => None,
    }
}

fn read_layer(v: &Json, i: usize) -> (r: LayerUpdate)
    ensures
        r@ == layer_row(v@, i as nat),
{
    let layer: i32 = #[verifier::truncate]
    (i as i32);
    LayerUpdate {
        layer,
        mastering_code: read_filled(v.field("mastering_code")),
        mastering_sid: read_filled(v.field("mastering_sid")),
        mould_sids: normalize_comma_separated(v.field("mould_sids").str_or_empty()),
        toolstamps: normalize_comma_separated(v.field("toolstamps").str_or_empty()),
        additional_moulds: normalize_comma_separated(v.field("additional_moulds").str_or_empty()),
    }
}

fn read_layers(v: &Json) -> (r: Vec<LayerUpdate>)
    ensures
        layer_views(r@) == layer_rows(json::list_or_empty(v@)),
{
    let mut out: Vec<LayerUpdate> = Vec::new();
    match v {
        Json::Array(list) => {
            let ghost all = json::json_views(list@);
            proof {
                json::lemma_json_views(list@);
                assert(layer_views(out@) =~= layer_rows(all.take(0)));
            }
            for i in 0..list.len()
                invariant
                    all == json::json_views(list@),
                    all.len() == list@.len(),
                    forall|k: int| 0 <= k < list@.len() ==> #[trigger] all[k] == list@[k]@,
                    layer_views(out@) == layer_rows(all.take(i as int)),
            {
                let ghost before = out@;
                proof {
                    let t = all.take(i + 1);
                    assert(t.drop_last() =~= all.take(i as int));
                    assert(t.last() == list@[i as int]@);
                }
                let row = read_layer(&list[i], i);
                let has_data = row.mastering_code.is_some() || row.mastering_sid.is_some()
                    || !row.mould_sids.as_str().is_empty() || !row.toolstamps.as_str().is_empty()
                    || !row.additional_moulds.as_str().is_empty();
                if has_data {
                    out.push(row);
                    assert(layer_views(out@) =~= layer_views(before).push(row@));
                }
            }
            assert(all.take(all.len() as int) =~= all);
        },
        _ => {
            assert(layer_views(out@) =~= layer_rows(json::list_or_empty(v@)));
        },
    }
    out
}

fn read_ring(v: &Json) -> (r: RingUpdate)
    ensures
        r@ == ring_row(v@),
{
    let id = match v.field("id").as_i64() {
        Some(n) => Some(cut(n)),
        None => None,
    };
    RingUpdate {
        id,
        offset_value: read_number(v.field("offset_value")),
        offset_extra_value: read_number(v.field("offset_extra_value")),
        sample_start: read_number(v.field("sample_start")),
        comment: read_filled(v.field("comment")),
        layers: read_layers(v.field("layers")),
    }
}

/// The value of optional rows.
pub open spec fn opt_rings(v: Option<Vec<RingUpdate>>) -> Option<Seq<RingView>> {
    match v {
        Some(x) => Some(ring_views(x@)),
        None => None,
    }
}

/// The pressings to store; without a list the stored ones stay.
pub open spec fn rings_field(v: JsonView) -> Option<Seq<RingView>> {
    match v {
        JsonView::Arr(list) => Some(ring_rows(list)),
        _ => None,
    }
}

fn read_rings(v: &Json) -> (r: Option<Vec<RingUpdate>>)
    ensures
        opt_rings(r) == rings_field(v@),
{
    match v {
        Json::Array(list) => {
            let ghost all = json::json_views(list@);
            let mut out: Vec<RingUpdate> = Vec::new();
            proof {
                json::lemma_json_views(list@);
            }
            for i in 0..list.len()
                invariant
                    all == json::json_views(list@),
                    all.len() == list@.len(),
                    forall|k: int| 0 <= k < list@.len() ==> #[trigger] all[k] == list@[k]@,
                    ring_views(out@) == ring_rows(all).take(i as int),
            {
                let ghost before = out@;
                let row = read_ring(&list[i]);
                out.push(row);
                assert(ring_views(out@) =~= ring_views(before).push(row@));
                assert(all[i as int] == list@[i as int]@);
            }
            assert(ring_rows(all).take(all.len() as int) =~= ring_rows(all));
            Some(out)
        },
        _ => None,
    }
}

// ── Files ──────────────────────────────────────────────────────────────────

/// A row of the file table.
#[derive(Debug)]
pub struct FileUpdate {
    pub track_number: Option<String>,
    pub size: i64,
    pub crc32: String,
    pub md5: String,
    pub sha1: String,
}

/// The value of a [`FileUpdate`].
pub struct FileView {
    pub track_number: Option<Seq<char>>,
    pub size: int,
    pub crc32: Seq<char>,
    pub md5: Seq<char>,
    pub sha1: Seq<char>,
}

impl View for FileUpdate {
    type V = FileView;

    open spec fn view(&self) -> FileView {
        FileView {
            track_number: text::opt_text(self.track_number),
            size: self.size as int,
            crc32: self.crc32@,
            md5: self.md5@,
            sha1: self.sha1@,
        }
    }
}

/// The rows as values.
pub open spec fn file_views(v: Seq<FileUpdate>) -> Seq<FileView> {
    v.map_values(|f: FileUpdate| f@)
}

/// The value of an attribute, or the empty text.
pub open spec fn attribute_or_empty(line: Seq<char>, attr: Seq<char>) -> Seq<char> {
    match validation::attribute(line, attr) {
        Some(v) => v,
        None => Seq::empty(),
    }
}

/// The size in a `rom` line, 0 where it is missing or no number.
pub open spec fn size_of_line(line: Seq<char>) -> int {
    match validation::attribute(line, "size"@) {
        Some(t) => match numbers::i64_value(t) {
            Some(n) => n,
            None => 0,
        },
        None => 0,
    }
}

/// The row of a `rom` line.
pub open spec fn file_row(line: Seq<char>) -> FileView {
    FileView {
        track_number: models::track_of_name(attribute_or_empty(line, "name"@)),
        size: size_of_line(line),
        crc32: attribute_or_empty(line, "crc"@),
        md5: attribute_or_empty(line, "md5"@),
        sha1: attribute_or_empty(line, "sha1"@),
    }
}

/// The rows of the lines that are `rom` lines.
pub open spec fn file_rows(ls: Seq<Seq<char>>) -> Seq<FileView>
    decreases ls.len(),
{
    if ls.len() == 0 {
        Seq::empty()
    } else {
        let before = file_rows(ls.drop_last());
        if text::starts_with(text::trim(ls.last()), "<rom "@) {
            before.push(file_row(text::trim(ls.last())))
        } else {
            before
        }
    }
}

/// The value of an attribute, or the empty text.
pub fn chars_attribute_or_empty(line: &[char], attr: &str) -> (r: String)
    ensures
        r@ == attribute_or_empty(line@, attr@),
{
    match chars_attribute(line, attr) {
        Some(v) => v,
        None => String::new(),
    }
}

/// The size in a `rom` line, 0 where it is missing or no number.
pub fn read_size(line: &[char]) -> (r: i64)
    ensures
        r == size_of_line(line@),
{
    match chars_attribute(line, "size") {
        Some(t) => match read_i64(&chars_of(t.as_str())) {
            Some(n) => n,
            None => 0,
        },
        None => 0,
    }
}

fn read_file(line: &[char]) -> (r: FileUpdate)
    ensures
        r@ == file_row(line@),
{
    let name = chars_attribute_or_empty(line, "name");
    FileUpdate {
        track_number: extract_track_from_filename(name.as_str()),
        size: read_size(line),
        crc32: chars_attribute_or_empty(line, "crc"),
        md5: chars_attribute_or_empty(line, "md5"),
        sha1: chars_attribute_or_empty(line, "sha1"),
    }
}

/// The rows of a track list.
pub fn read_files(files_xml: &str) -> (r: Vec<FileUpdate>)
    ensures
        file_views(r@) == file_rows(text::lines(files_xml@)),
{
    let chars = chars_of(files_xml);
    let ls = chars_lines(&chars);
    let ghost all = text::slices(ls@);
    let mut out: Vec<FileUpdate> = Vec::new();
    assert(file_views(out@) =~= file_rows(all.take(0)));
    for i in 0..ls.len()
        invariant
            all == text::slices(ls@),
            all == text::lines(files_xml@),
            file_views(out@) == file_rows(all.take(i as int)),
    {
        let line = chars_trim(ls[i]);
        let ghost before = out@;
        proof {
            let t = all.take(i + 1);
            assert(t.drop_last() =~= all.take(i as int));
            assert(t.last() == ls@[i as int]@);
        }
        if chars_start_with(line, "<rom ") {
            let row = read_file(line);
            out.push(row);
            assert(file_views(out@) =~= file_views(before).push(row@));
        }
    }
    assert(all.take(all.len() as int) =~= all);
    out
}

/// The files to store; without a track list the stored ones stay.
pub open spec fn files_field(v: JsonView) -> Option<Seq<FileView>> {
    match v {
        JsonView::Str(s) => Some(file_rows(text::lines(text::unix_newlines(s)))),
        _ => None,
    }
}

/// The value of optional rows.
pub open spec fn opt_files(v: Option<Vec<FileUpdate>>) -> Option<Seq<FileView>> {
    match v {
        Some(x) => Some(file_views(x@)),
        None => None,
    }
}

fn read_files_field(v: &Json) -> (r: Option<Vec<FileUpdate>>)
    ensures
        opt_files(r) == files_field(v@),
{
    match v {
        Json::Text(s) => {
            let t = normalize_newlines(s.as_str());
            Some(read_files(t.as_str()))
        },
        _ => None,
    }
}

// ── The whole update ───────────────────────────────────────────────────────

/// Everything that a snapshot writes about a disc.
#[derive(Debug)]
pub struct DiscUpdate {
    pub title: String,
    pub system_code: Option<String>,
    pub media_type: Option<String>,
    pub category: String,
    pub title_foreign: Option<String>,
    pub disc_title: Option<String>,
    pub disc_number: Option<String>,
    pub filename_suffix: Option<String>,
    pub serial: Vec<String>,
    pub version: Option<String>,
    pub edition: Vec<String>,
    pub barcode: Vec<String>,
    pub comments: Option<String>,
    pub contents: Option<String>,
    pub error_count: Option<i32>,
    pub exe_date: Option<String>,
    pub edc: bool,
    pub layerbreaks: Option<Vec<i32>>,
    pub pvd: Option<Vec<u8>>,
    pub pic: Option<Vec<u8>>,
    pub bca: Option<Vec<u8>>,
    pub header: Option<Vec<u8>>,
    pub protection: Option<String>,
    pub sbi: Option<String>,
    pub disc_id: Option<String>,
    pub disc_key: Option<Vec<u8>>,
    pub universal_hash: Option<Vec<u8>>,
    pub cue: Option<String>,
    pub status: DiscStatus,
    pub sector_ranges: SectorRangeUpdate,
    pub regions: Vec<String>,
    pub languages: Vec<String>,
    pub ring_codes: Option<Vec<RingUpdate>>,
    pub files: Option<Vec<FileUpdate>>,
}

/// The value of a [`DiscUpdate`].
pub struct DiscUpdateView {
    pub title: Seq<char>,
    pub system_code: Option<Seq<char>>,
    pub media_type: Option<Seq<char>>,
    pub category: Seq<char>,
    pub title_foreign: Option<Seq<char>>,
    pub disc_title: Option<Seq<char>>,
    pub disc_number: Option<Seq<char>>,
    pub filename_suffix: Option<Seq<char>>,
    pub serial: Seq<Seq<char>>,
    pub version: Option<Seq<char>>,
    pub edition: Seq<Seq<char>>,
    pub barcode: Seq<Seq<char>>,
    pub comments: Option<Seq<char>>,
    pub contents: Option<Seq<char>>,
    pub error_count: Option<i32>,
    pub exe_date: Option<Seq<char>>,
    pub edc: bool,
    pub layerbreaks: Option<Seq<i32>>,
    pub pvd: Option<Seq<u8>>,
    pub pic: Option<Seq<u8>>,
    pub bca: Option<Seq<u8>>,
    pub header: Option<Seq<u8>>,
    pub protection: Option<Seq<char>>,
    pub sbi: Option<Seq<char>>,
    pub disc_id: Option<Seq<char>>,
    pub disc_key: Option<Seq<u8>>,
    pub universal_hash: Option<Seq<u8>>,
    pub cue: Option<Seq<char>>,
    pub status: DiscStatus,
    pub sector_ranges: SectorRangeView,
    pub regions: Seq<Seq<char>>,
    pub languages: Seq<Seq<char>>,
    pub ring_codes: Option<Seq<RingView>>,
    pub files: Option<Seq<FileView>>,
}

impl View for DiscUpdate {
    type V = DiscUpdateView;

    open spec fn view(&self) -> DiscUpdateView {
        DiscUpdateView {
            title: self.title@,
            system_code: text::opt_text(self.system_code),
            media_type: text::opt_text(self.media_type),
            category: self.category@,
            title_foreign: text::opt_text(self.title_foreign),
            disc_title: text::opt_text(self.disc_title),
            disc_number: text::opt_text(self.disc_number),
            filename_suffix: text::opt_text(self.filename_suffix),
            serial: text::texts(self.serial@),
            version: text::opt_text(self.version),
            edition: text::texts(self.edition@),
            barcode: text::texts(self.barcode@),
            comments: text::opt_text(self.comments),
            contents: text::opt_text(self.contents),
            error_count: self.error_count,
            exe_date: text::opt_text(self.exe_date),
            edc: self.edc,
            layerbreaks: opt_numbers(self.layerbreaks),
            pvd: opt_bytes(self.pvd),
            pic: opt_bytes(self.pic),
            bca: opt_bytes(self.bca),
            header: opt_bytes(self.header),
            protection: text::opt_text(self.protection),
            sbi: text::opt_text(self.sbi),
            disc_id: text::opt_text(self.disc_id),
            disc_key: opt_bytes(self.disc_key),
            universal_hash: opt_bytes(self.universal_hash),
            cue: text::opt_text(self.cue),
            status: self.status,
            sector_ranges: self.sector_ranges@,
            regions: text::texts(self.regions@),
            languages: text::texts(self.languages@),
            ring_codes: opt_rings(self.ring_codes),
            files: opt_files(self.files),
        }
    }
}

/// The first refusal among the binary fields of a snapshot.
pub open spec fn update_refusal(d: JsonView) -> Option<ErrorView> {
    if hex_dump::hex_field("disc_key"@, json::as_text(json::field(d, "disc_key"@))) is Err {
        Some(hex_dump::hex_field("disc_key"@, json::as_text(json::field(d, "disc_key"@)))->Err_0)
    } else if hex_dump::universal_hash_field(json::as_text(json::field(d, "universal_hash"@))) is Err {
        Some(hex_dump::universal_hash_field(json::as_text(json::field(d, "universal_hash"@)))->Err_0)
    } else if pvd_field(json::field(d, "pvd"@)) is Err {
        Some(pvd_field(json::field(d, "pvd"@))->Err_0)
    } else if dump_field(json::field(d, "pic"@), "PIC: "@) is Err {
        Some(dump_field(json::field(d, "pic"@), "PIC: "@)->Err_0)
    } else if dump_field(json::field(d, "bca"@), "BCA: "@) is Err {
        Some(dump_field(json::field(d, "bca"@), "BCA: "@)->Err_0)
    } else if dump_field(json::field(d, "header"@), "Header: "@) is Err {
        Some(dump_field(json::field(d, "header"@), "Header: "@)->Err_0)
    } else {
        None
    }
}

/// What a snapshot without a refusal writes about a disc.
pub open spec fn update_of(d: JsonView) -> DiscUpdateView {
    DiscUpdateView {
        title: json::text_or_empty(json::field(d, "title"@)),
        system_code: plain(json::field(d, "system_code"@)),
        media_type: plain(json::field(d, "media_type"@)),
        category: text_or_default(json::field(d, "category"@), "Games"@),
        title_foreign: filled(json::field(d, "title_foreign"@)),
        disc_title: filled(json::field(d, "disc_title"@)),
        disc_number: filled(json::field(d, "disc_number"@)),
        filename_suffix: filled(json::field(d, "filename_suffix"@)),
        serial: disc_service::text_array(json::field(d, "serial"@)),
        version: filled(json::field(d, "version"@)),
        edition: disc_service::text_array(json::field(d, "edition"@)),
        barcode: disc_service::text_array(json::field(d, "barcode"@)),
        comments: filled_lines(json::field(d, "comments"@)),
        contents: filled_lines(json::field(d, "contents"@)),
        error_count: id_field(json::field(d, "error_count"@)),
        exe_date: filled(json::field(d, "exe_date"@)),
        edc: json::field(d, "edc"@) == JsonView::Bool(true),
        layerbreaks: layerbreaks_field(json::field(d, "layerbreaks"@)),
        pvd: pvd_field(json::field(d, "pvd"@))->Ok_0,
        pic: dump_field(json::field(d, "pic"@), "PIC: "@)->Ok_0,
        bca: dump_field(json::field(d, "bca"@), "BCA: "@)->Ok_0,
        header: dump_field(json::field(d, "header"@), "Header: "@)->Ok_0,
        protection: filled_lines(json::field(d, "protection"@)),
        sbi: filled_lines(json::field(d, "sbi"@)),
        disc_id: filled_trim(json::field(d, "disc_id"@)),
        disc_key: hex_dump::hex_field("disc_key"@, json::as_text(json::field(d, "disc_key"@)))->Ok_0,
        universal_hash: hex_dump::universal_hash_field(json::as_text(json::field(d, "universal_hash"@)))->Ok_0,
        cue: filled_lines(json::field(d, "cuesheet"@)),
        status: status_field(json::field(d, "status"@)),
        sector_ranges: sector_ranges_field(json::field(d, "sector_ranges"@)),
        regions: json::list_texts(json::list_or_empty(json::field(d, "regions"@))),
        languages: json::list_texts(json::list_or_empty(json::field(d, "languages"@))),
        ring_codes: rings_field(json::field(d, "ring_codes"@)),
        files: files_field(json::field(d, "dat"@)),
    }
}

fn read_list_texts(v: &Json) -> (r: Vec<String>)
    ensures
        text::texts(r@) == json::list_texts(json::list_or_empty(v@)),
{
    match v {
        Json::Array(list) => array_texts(list),
        _ => {
            let none: Vec<String> = Vec::new();
            assert(text::texts(none@) =~= Seq::<Seq<char>>::empty());
            none
        },
    }
}

/// Read a snapshot into what it writes about a disc.
pub fn read_disc_update(data: &Json) -> (r: Result<DiscUpdate, AppError>)
    ensures
        match r {
            Ok(u) => update_refusal(data@) is None && u@ == update_of(data@),
            Err(e) => update_refusal(data@) == Some(e@),
        },
{
    let disc_key = match parse_hex_text_bytes(data.field("disc_key").as_str()) {
        Ok(v) => v,
        Err(e) => {
            return Err(e);
        },
    };
    let universal_hash = match parse_universal_hash_bytes(data.field("universal_hash").as_str()) {
        Ok(v) => v,
        Err(e) => {
            return Err(e);
        },
    };
    let pvd = match read_pvd(data.field("pvd")) {
        Ok(v) => v,
        Err(e) => {
            return Err(e);
        },
    };
    let pic = match read_dump(data.field("pic"), "PIC: ") {
        Ok(v) => v,
        Err(e) => {
            return Err(e);
        },
    };
    let bca = match read_dump(data.field("bca"), "BCA: ") {
        Ok(v) => v,
        Err(e) => {
            return Err(e);
        },
    };
    let header = match read_dump(data.field("header"), "Header: ") {
        Ok(v) => v,
        Err(e) => {
            return Err(e);
        },
    };
    let error_count = match data.field("error_count").as_i64() {
        Some(n) => Some(cut(n)),
        None => None,
    };
    let edc = match data.field("edc").as_bool() {
        Some(b) => b,
        None => false,
    };
    Ok(
        DiscUpdate {
            title: String::from_str(data.field("title").str_or_empty()),
            system_code: read_plain(data.field("system_code")),
            media_type: read_plain(data.field("media_type")),
            category: read_or_default(data.field("category"), "Games"),
            title_foreign: read_filled(data.field("title_foreign")),
            disc_title: read_filled(data.field("disc_title")),
            disc_number: read_filled(data.field("disc_number")),
            filename_suffix: read_filled(data.field("filename_suffix")),
            serial: parse_text_array(data.field("serial")),
            version: read_filled(data.field("version")),
            edition: parse_text_array(data.field("edition")),
            barcode: parse_text_array(data.field("barcode")),
            comments: read_filled_lines(data.field("comments")),
            contents: read_filled_lines(data.field("contents")),
            error_count,
            exe_date: read_filled(data.field("exe_date")),
            edc,
            layerbreaks: read_layerbreaks(data.field("layerbreaks")),
            pvd,
            pic,
            bca,
            header,
            protection: read_filled_lines(data.field("protection")),
            sbi: read_filled_lines(data.field("sbi")),
            disc_id: read_filled_trim(data.field("disc_id")),
            disc_key,
            universal_hash,
            cue: read_filled_lines(data.field("cuesheet")),
            status: read_status(data.field("status")),
            sector_ranges: read_sector_ranges(data.field("sector_ranges")),
            regions: read_list_texts(data.field("regions")),
            languages: read_list_texts(data.field("languages")),
            ring_codes: read_rings(data.field("ring_codes")),
            files: read_files_field(data.field("dat")),
        },
    )
}

/// The columns that a new disc starts from.
#[derive(Debug)]
pub struct NewDisc {
    pub system_code: String,
    pub media_type: String,
    pub title: String,
    pub category: String,
}

/// Read a snapshot into the columns that a new disc starts from.
pub fn read_new_disc(data: &Json) -> (r: Result<NewDisc, AppError>)
    ensures
        match r {
            Ok(d) => {
                &&& filled(json::field(data@, "system_code"@)) == Some(d.system_code@)
                &&& d.media_type@ == text_or_default(json::field(data@, "media_type"@), "cd"@)
                &&& d.title@ == json::text_or_empty(json::field(data@, "title"@))
                &&& d.category@ == text_or_default(json::field(data@, "category"@), "Games"@)
            },
            Err(e) => filled(json::field(data@, "system_code"@)) is None && e@ == ErrorView::BadRequest(
                "system_code required"@,
            ),
        },
{
    match read_filled(data.field("system_code")) {
        None => Err(bad_request("system_code required")),
        Some(system_code) => Ok(
            NewDisc {
                system_code,
                media_type: read_or_default(data.field("media_type"), "cd"),
                title: String::from_str(data.field("title").str_or_empty()),
                category: read_or_default(data.field("category"), "Games"),
            },
        ),
    }
}

// ── Track lists that were accepted ─────────────────────────────────────────

/// A row of a file with the hashes of a dump.
pub open spec fn row_has_hashes(r: FileView) -> bool {
    validation::is_hash(r.crc32, 8) && validation::is_hash(r.md5, 32) && validation::is_hash(r.sha1, 40)
}

proof fn lemma_file_rows_first(ls: Seq<Seq<char>>)
    requires
        ls.len() > 0,
    ensures
        file_rows(ls) == (if text::starts_with(text::trim(ls[0]), "<rom "@) {
            seq![file_row(text::trim(ls[0]))]
        } else {
            Seq::empty()
        }) + file_rows(ls.drop_first()),
    decreases ls.len(),
{
    let head = if text::starts_with(text::trim(ls[0]), "<rom "@) {
        seq![file_row(text::trim(ls[0]))]
    } else {
        Seq::empty()
    };
    if ls.len() == 1 {
        assert(ls.drop_last() =~= Seq::<Seq<char>>::empty());
        assert(ls.drop_first() =~= Seq::<Seq<char>>::empty());
        assert(file_rows(ls) =~= head + file_rows(ls.drop_first()));
    } else {
        let p = ls.drop_last();
        let rest = ls.drop_first();
        lemma_file_rows_first(p);
        assert(p.drop_first() =~= rest.drop_last());
        assert(p[0] == ls[0] && rest.last() == ls.last());
        assert(file_rows(ls) =~= head + file_rows(rest));
    }
}

proof fn lemma_named_rows(ls: Seq<Seq<char>>, row: nat)
    ensures
        validation::dat_names(ls, row) matches Ok(names) ==> {
            &&& file_rows(ls).len() == names.len()
            &&& forall|i: int|
                0 <= i < names.len() ==> {
                    &&& row_has_hashes(#[trigger] file_rows(ls)[i])
                    &&& file_rows(ls)[i].track_number == models::track_of_name(names[i].1)
                }
        },
    decreases ls.len(),
{
    if ls.len() > 0 {
        let line = text::trim(ls[0]);
        let rest = ls.drop_first();
        lemma_file_rows_first(ls);
        lemma_named_rows(rest, row + 1);
        reveal_strlit("<rom ");
        let rows = file_rows(ls);
        let after = file_rows(rest);
        if line.len() == 0 {
            assert(rows =~= after);
        } else if let Ok(name) = validation::dat_line(line, row) {
            if let Ok(more) = validation::dat_names(rest, row + 1) {
                let names = seq![(row, name)] + more;
                assert forall|i: int| 0 <= i < names.len() implies {
                    &&& row_has_hashes(#[trigger] rows[i])
                    &&& rows[i].track_number == models::track_of_name(names[i].1)
                } by {
                    if i > 0 {
                        assert(rows[i] == after[i - 1]);
                        assert(names[i] == more[i - 1]);
                    } else {
                        assert(rows[0] == file_row(line));
                    }
                }
            }
        }
    }
}

proof fn lemma_tracked(names: Seq<(nat, Seq<char>)>)
    requires
        validation::untracked(names) is Ok,
    ensures
        forall|i: int| 0 <= i < names.len() ==> models::track_of_name((#[trigger] names[i]).1) is Some,
    decreases names.len(),
{
    if names.len() > 0 {
        lemma_tracked(names.drop_first());
        assert forall|i: int| 0 <= i < names.len() implies models::track_of_name(
            (#[trigger] names[i]).1,
        ) is Some by {
            if i > 0 {
                assert(names.drop_first()[i - 1] == names[i]);
            }
        }
    }
}

/// Every line of an accepted track list that is not blank is read, with its hashes; where
/// there is more than one, each has the number of its track.
pub proof fn law_accepted_tracks_are_all_read(text: Seq<char>)
    requires
        validation::dat(text) is Ok,
    ensures
        ({
            let rows = file_rows(text::lines(text::trim(text)));
            &&& validation::dat_names(text::lines(text::trim(text)), 1) matches Ok(names) && rows.len() == names.len()
            &&& forall|i: int| 0 <= i < rows.len() ==> row_has_hashes(#[trigger] rows[i])
            &&& rows.len() > 1 ==> forall|i: int|
                0 <= i < rows.len() ==> (#[trigger] rows[i]).track_number is Some
        }),
{
    let ls = text::lines(text::trim(text));
    lemma_named_rows(ls, 1);
    if let Ok(names) = validation::dat_names(ls, 1) {
        if names.len() > 1 {
            lemma_tracked(names);
            let rows = file_rows(ls);
            assert forall|i: int| 0 <= i < rows.len() implies (#[trigger] rows[i]).track_number
                is Some by {
                assert(row_has_hashes(rows[i]));
                assert(models::track_of_name(names[i].1) is Some);
            }
        }
    }
}

} // verus!
