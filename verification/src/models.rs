//! The records of the database, as plain values.

use vstd::prelude::*;

use crate::json::Json;
use crate::text::{
    self, cat3, char_is_digit, chars_end_with, chars_eq, chars_find_from, chars_lower, chars_of,
    string_of,
};

verus! {

/// How far the data of a disc can be relied on.
#[derive(Clone, Copy, Debug, PartialEq, Eq, Structural)]
pub enum DiscStatus {
    Disabled,
    Questionable,
    Unverified,
    Verified,
}

/// What a submission proposes.
#[derive(Clone, Copy, Debug, PartialEq, Eq, Structural)]
pub enum SubmissionType {
    Disc,
    Edit,
}

/// Where a submission stands in review.
#[derive(Clone, Copy, Debug, PartialEq, Eq, Structural)]
pub enum SubmissionStatus {
    Pending,
    Draft,
    Approved,
    Rejected,
    Legacy,
}

/// What a submission is shown as.
#[derive(Clone, Copy, Debug, PartialEq, Eq, Structural)]
pub enum SubmissionDisplayKind {
    Edit,
    Disc,
    NewDisc,
    Verification,
}

impl DiscStatus {
    /// The name under which the status is stored.
    pub open spec fn name(self) -> Seq<char> {
        match self {
            DiscStatus::Disabled => "Disabled"@,
            DiscStatus::Questionable => "Questionable"@,
            DiscStatus::Unverified => "Unverified"@,
            DiscStatus::Verified => "Verified"@,
        }
    }

    /// The name under which the status is stored.
    pub fn as_str(&self) -> (r: &'static str)
        ensures
            r@ == self.name(),
    {
        match self {
            DiscStatus::Disabled => "Disabled",
            DiscStatus::Questionable => "Questionable",
            DiscStatus::Unverified => "Unverified",
            DiscStatus::Verified => "Verified",
        }
    }
}

impl SubmissionType {
    /// The name under which the type is stored.
    pub open spec fn name(self) -> Seq<char> {
        match self {
            SubmissionType::Disc => "Disc"@,
            SubmissionType::Edit => "Edit"@,
        }
    }

    /// The name under which the type is stored.
    pub fn as_str(&self) -> (r: &'static str)
        ensures
            r@ == self.name(),
    {
        match self {
            SubmissionType::Disc => "Disc",
            SubmissionType::Edit => "Edit",
        }
    }
}

impl SubmissionStatus {
    /// The name under which the status is stored.
    pub open spec fn name(self) -> Seq<char> {
        match self {
            SubmissionStatus::Pending => "Pending"@,
            SubmissionStatus::Draft => "Draft"@,
            SubmissionStatus::Approved => "Approved"@,
            SubmissionStatus::Rejected => "Rejected"@,
            SubmissionStatus::Legacy => "Legacy"@,
        }
    }

    /// The name under which the status is stored.
    pub fn as_str(&self) -> (r: &'static str)
        ensures
            r@ == self.name(),
    {
        match self {
            SubmissionStatus::Pending => "Pending",
            SubmissionStatus::Draft => "Draft",
            SubmissionStatus::Approved => "Approved",
            SubmissionStatus::Rejected => "Rejected",
            SubmissionStatus::Legacy => "Legacy",
        }
    }
}

/// A submission that nobody has decided on.
pub open spec fn is_unprocessed(status: SubmissionStatus) -> bool {
    status == SubmissionStatus::Pending || status == SubmissionStatus::Draft
}

/// What a submission is shown as: an edit, a disc that was decided on, or, while nobody
/// has decided, a new disc or the verification of its target.
pub open spec fn display_kind_of(
    submission_type: SubmissionType,
    status: SubmissionStatus,
    has_target: bool,
) -> SubmissionDisplayKind {
    if submission_type == SubmissionType::Edit {
        SubmissionDisplayKind::Edit
    } else if !is_unprocessed(status) {
        SubmissionDisplayKind::Disc
    } else if has_target {
        SubmissionDisplayKind::Verification
    } else {
        SubmissionDisplayKind::NewDisc
    }
}

impl SubmissionDisplayKind {
    /// The name of the kind.
    pub open spec fn name(self) -> Seq<char> {
        match self {
            SubmissionDisplayKind::Edit => "Edit"@,
            SubmissionDisplayKind::Disc => "Disc"@,
            SubmissionDisplayKind::NewDisc => "New Disc"@,
            SubmissionDisplayKind::Verification => "Verification"@,
        }
    }

    /// What a submission is shown as.
    pub fn of(submission_type: SubmissionType, status: SubmissionStatus, has_target: bool) -> (r:
        SubmissionDisplayKind)
        ensures
            r == display_kind_of(submission_type, status, has_target),
    {
        match (submission_type, status) {
            (SubmissionType::Edit, _) => SubmissionDisplayKind::Edit,
            (SubmissionType::Disc, SubmissionStatus::Pending | SubmissionStatus::Draft) => {
                if has_target {
                    SubmissionDisplayKind::Verification
                } else {
                    SubmissionDisplayKind::NewDisc
                }
            },
            (SubmissionType::Disc, _) => SubmissionDisplayKind::Disc,
        }
    }
}

/// What a user may do.
#[derive(Clone, Copy, Debug, PartialEq, Eq, Structural)]
pub enum UserRole {
    User,
    Moderator,
    Admin,
}

impl UserRole {
    /// Whether a user may decide on submissions.
    pub fn can_moderate(&self) -> (r: bool)
        ensures
            r == (*self != UserRole::User),
    {
        match self {
            UserRole::User => false,
            _ => true,
        }
    }
}

/// Who is logged in.
#[derive(Debug)]
pub struct AuthenticatedUser {
    pub id: i32,
    pub username: String,
    pub role: UserRole,
    pub avatar_url: Option<String>,
}

/// A kind of medium.
#[derive(Debug)]
pub struct MediaType {
    pub code: String,
    pub name: String,
    pub layer_count: u32,
    pub pic: bool,
    pub rom_extension: String,
}

/// A platform and the fields that its discs have.
#[derive(Debug)]
pub struct System {
    pub code: String,
    pub system_type: String,
    pub manufacturer: String,
    pub name: String,
    pub short_name: String,
    pub media_types: Vec<String>,
    pub has_exe_date: bool,
    pub has_sbi: bool,
    pub has_pvd: bool,
    pub has_edc: bool,
    pub has_disc_id: bool,
    pub has_key: bool,
    pub has_universal_hash: bool,
    pub has_title_foreign: bool,
    pub has_disc_title: bool,
    pub has_disc_number: bool,
    pub has_serial: bool,
    pub has_barcode: bool,
    pub has_version: bool,
    pub has_edition: bool,
    pub has_protection: bool,
    pub has_sector_ranges: bool,
    pub has_header: bool,
    pub has_bca: bool,
    pub has_sample_start: bool,
    pub has_offset_extra: bool,
}

/// A disc.
#[derive(Debug)]
pub struct Disc {
    pub id: i32,
    pub system_code: String,
    pub media_type: MediaType,
    pub title: String,
    pub title_foreign: Option<String>,
    pub disc_title: Option<String>,
    pub disc_number: Option<String>,
    pub serial: Vec<String>,
    pub category: String,
    pub version: Option<String>,
    pub edition: Vec<String>,
    pub barcode: Vec<String>,
    pub comments: Option<String>,
    pub contents: Option<String>,
    pub filename_suffix: Option<String>,
    pub error_count: Option<i32>,
    pub exe_date: Option<String>,
    pub edc: bool,
    pub layerbreaks: Option<Vec<i32>>,
    pub protection: Option<String>,
    pub sbi: Option<String>,
    pub disc_id: Option<String>,
    pub disc_key: Option<Vec<u8>>,
    pub universal_hash: Option<Vec<u8>>,
    pub cue: Option<String>,
    pub pvd: Option<Vec<u8>>,
    pub pic: Option<Vec<u8>>,
    pub header: Option<Vec<u8>>,
    pub bca: Option<Vec<u8>>,
    pub status: DiscStatus,
}

/// What is engraved on one layer of a pressing.
#[derive(Debug)]
pub struct DiscRingCodeLayer {
    pub id: i32,
    pub entry_id: i32,
    pub layer: i32,
    pub mastering_code: Option<String>,
    pub mastering_sid: Option<String>,
    pub mould_sids: String,
    pub toolstamps: String,
    pub additional_moulds: String,
}

/// A pressing of a disc, with its layers.
#[derive(Debug)]
pub struct RingEntryView {
    pub id: i32,
    pub offset_value: Option<i32>,
    pub offset_extra_value: Option<i32>,
    pub sample_data_start: Option<i32>,
    pub comment: Option<String>,
    pub layers: Vec<DiscRingCodeLayer>,
}

/// A file of a dump; a cuesheet has no track number.
#[derive(Debug)]
pub struct File {
    pub id: i32,
    pub disc_id: i32,
    pub track_number: Option<String>,
    pub size: i64,
    pub crc32: String,
    pub md5: String,
    pub sha1: String,
}

/// A region.
#[derive(Debug)]
pub struct Region {
    pub code: String,
    pub name: String,
    pub flag_code: String,
    pub sort_order: i32,
}

/// A language.
#[derive(Debug)]
pub struct Language {
    pub code: String,
    pub name: String,
    pub flag_code: String,
    pub sort_order: i32,
}

/// A range of protected sectors.
#[derive(Clone, Copy, Debug)]
pub struct ProtectionRange {
    pub range_start: i32,
    pub range_end: i32,
}

/// Who dumped a disc.
#[derive(Debug, PartialEq, Eq)]
pub struct DumperInfo {
    pub user_id: i32,
    pub username: String,
}

/// A disc with everything that is stored about it.
#[derive(Debug)]
pub struct DiscDetail {
    pub disc: Disc,
    pub system: System,
    pub regions: Vec<Region>,
    pub languages: Vec<Language>,
    pub ring_entries: Vec<RingEntryView>,
    pub files: Vec<File>,
    pub dumpers: Vec<DumperInfo>,
    /// How many submissions of the disc itself aim at it.
    pub disc_submission_count: i64,
    pub sector_ranges: Vec<ProtectionRange>,
    /// When the first submission was handed in, in seconds since the Unix epoch.
    pub added_at: Option<i64>,
    /// When the last submission was handed in, in seconds since the Unix epoch.
    pub modified_at: Option<i64>,
}

/// A change that was handed in.
#[derive(Debug)]
pub struct DiscSubmission {
    pub id: i32,
    pub submission_type: SubmissionType,
    pub submitter_id: i32,
    pub submission_comment: Option<String>,
    pub target_disc_id: Option<i32>,
    pub changes: Json,
    pub dump_log: Option<String>,
    pub extra_upload_url: Option<String>,
    pub submission_token: Option<String>,
    pub submission_fingerprint: Option<String>,
    pub status: SubmissionStatus,
    pub reviewer_id: Option<i32>,
    pub review_comment: Option<String>,
    /// Seconds since the Unix epoch.
    pub created_at: i64,
    /// Seconds since the Unix epoch.
    pub reviewed_at: Option<i64>,
}

impl DiscSubmission {
    /// What the submission is shown as.
    pub fn display_kind(&self) -> (r: SubmissionDisplayKind)
        ensures
            r == display_kind_of(self.submission_type, self.status, self.target_disc_id is Some),
    {
        SubmissionDisplayKind::of(
            self.submission_type,
            self.status,
            self.target_disc_id.is_some(),
        )
    }
}

/// Equality up to the case of ASCII letters.
pub open spec fn same_ignoring_case(a: Seq<char>, b: Seq<char>) -> bool {
    text::lower_text(a) == text::lower_text(b)
}

/// Whether two texts are equal up to the case of ASCII letters.
pub fn eq_ignore_case(a: &str, b: &str) -> (r: bool)
    ensures
        r == same_ignoring_case(a@, b@),
{
    let x = chars_of(a);
    let y = chars_of(b);
    chars_eq(&chars_lower(&x), &chars_lower(&y))
}

/// The file extension of a compact disc image, whose tracks a cuesheet lists.
pub open spec fn cd_extension(ext: Seq<char>) -> bool {
    same_ignoring_case(ext, "bin"@)
}

/// Whether a file extension is that of a compact disc image.
pub fn is_cd_rom_extension(ext: &str) -> (r: bool)
    ensures
        r == cd_extension(ext@),
{
    eq_ignore_case(ext, "bin")
}

/// `code` is among `codes`, up to the case of ASCII letters.
pub open spec fn listed_ignoring_case(codes: Seq<String>, code: Seq<char>) -> bool {
    exists|i: int| 0 <= i < codes.len() && same_ignoring_case(#[trigger] codes[i]@, code)
}

/// Whether `code` is among `codes`, up to the case of ASCII letters.
pub fn is_listed(codes: &Vec<String>, code: &str) -> (r: bool)
    ensures
        r == listed_ignoring_case(codes@, code@),
{
    for i in 0..codes.len()
        invariant
            forall|j: int| 0 <= j < i ==> !same_ignoring_case(#[trigger] codes@[j]@, code@),
    {
        if eq_ignore_case(codes[i].as_str(), code) {
            return true;
        }
    }
    false
}

/// A cuesheet belongs to a disc whose medium is dumped track by track and is one of
/// the platform's media.
pub open spec fn cue_is_active(media_types: Seq<String>, code: Seq<char>, ext: Seq<char>) -> bool {
    cd_extension(ext) && listed_ignoring_case(media_types, code)
}

impl System {
    /// Whether discs of this medium have a cuesheet.
    pub fn has_cue_for_media_type(&self, media_type: &MediaType) -> (r: bool)
        ensures
            r == cue_is_active(self.media_types@, media_type.code@, media_type.rom_extension@),
    {
        is_cd_rom_extension(media_type.rom_extension.as_str()) && is_listed(
            &self.media_types,
            media_type.code.as_str(),
        )
    }

    /// The name with the manufacturer before it.
    pub open spec fn full_name(self) -> Seq<char> {
        if self.manufacturer@.len() == 0 {
            self.name@
        } else {
            self.manufacturer@ + " "@ + self.name@
        }
    }

    /// The name with the manufacturer before it.
    pub fn system_name(&self) -> (r: String)
        ensures
            r@ == self.full_name(),
    {
        if self.manufacturer.as_str().is_empty() {
            self.name.clone()
        } else {
            cat3(self.manufacturer.as_str(), " ", self.name.as_str())
        }
    }
}

/// The leading digits of `s`.
pub open spec fn leading_digits(s: Seq<char>) -> Seq<char>
    decreases s.len(),
{
    if s.len() > 0 && text::is_digit(s[0]) {
        seq![s[0]] + leading_digits(s.drop_first())
    } else {
        Seq::empty()
    }
}

/// A numeral without its leading zeros; at least one digit stays.
pub open spec fn strip_zeros(s: Seq<char>) -> Seq<char>
    decreases s.len(),
{
    if s.len() > 1 && s[0] == '0' {
        strip_zeros(s.drop_first())
    } else {
        s
    }
}

/// The track that a file name stands for: the number behind the word `Track`, or
/// track 0 for a disc image in one file.
pub open spec fn track_of_name(name: Seq<char>) -> Option<Seq<char>> {
    let numbered = match text::find(name, "Track "@) {
        Some(p) => leading_digits(name.skip(p + "Track "@.len())),
        None => Seq::empty(),
    };
    if numbered.len() > 0 {
        Some(strip_zeros(numbered))
    } else if text::ends_with(text::lower_text(name), ".iso"@) {
        Some("0"@)
    } else {
        None
    }
}

/// The track that a file name stands for.
pub fn extract_track_from_filename(filename: &str) -> (r: Option<String>)
    ensures
        text::opt_text(r) == track_of_name(filename@),
{
    let name = chars_of(filename);
    let word = chars_of("Track ");
    let mut digits: Vec<char> = Vec::new();
    if let Some(p) = chars_find_from(&name, &word, 0) {
        let end: usize = name.len();
        let start: usize = p + word.len();
        let mut i: usize = start;
        let ghost rest = name@.skip(start as int);
        assert(digits@ + leading_digits(rest) =~= leading_digits(rest));
        while i < end && char_is_digit(name[i])
            invariant
                start <= i <= end,
                end == name@.len(),
                rest == name@.skip(start as int),
                digits@ + leading_digits(name@.skip(i as int)) == leading_digits(rest),
            decreases name@.len() - i,
        {
            let ghost before = digits@;
            let ghost here = name@.skip(i as int);
            digits.push(name[i]);
            proof {
                assert(here[0] == name@[i as int]);
                assert(here.drop_first() =~= name@.skip(i + 1));
                assert(before + (seq![here[0]] + leading_digits(here.drop_first())) =~= digits@
                    + leading_digits(here.drop_first()));
            }
            i += 1;
        }
        proof {
            let here = name@.skip(i as int);
            if i < name@.len() {
                assert(here[0] == name@[i as int]);
            }
            assert(digits@ + leading_digits(here) =~= digits@);
        }
    }
    if digits.len() > 0 {
        let mut k: usize = 0;
        assert(digits@.skip(0) =~= digits@);
        while k < digits.len() - 1 && digits[k] == '0'
            invariant
                k < digits@.len(),
                strip_zeros(digits@.skip(k as int)) == strip_zeros(digits@),
            decreases digits@.len() - k,
        {
            assert(digits@.skip(k as int).drop_first() =~= digits@.skip(k + 1));
            k += 1;
        }
        let rest = &digits[k..digits.len()];
        assert(rest@ =~= digits@.skip(k as int));
        return Some(string_of(rest));
    }
    let small = chars_lower(&name);
    if chars_end_with(&small, ".iso") {
        Some(String::from_str("0"))
    } else {
        None
    }
}

} // verus!
