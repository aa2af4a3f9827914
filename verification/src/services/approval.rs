//! The decisions on the way from a submission to an approved disc.

use vstd::prelude::*;

use crate::error::{AppError, ErrorView, bad_request};
use crate::json::{self, Json, JsonView, array_texts};
use crate::models::{DiscStatus, DiscSubmission, SubmissionStatus, SubmissionType};
use crate::naming::{self, build_rom_base_name, format_display_title};
use crate::numbers::{self, write_i64};
use crate::services::changes;
use crate::services::disc_match::{self, nonempty_input};
use crate::services::resolution::{
    self, ApprovalResolution, change_set_contains, preserve_submitted_status_change,
    resolve_approval,
};
use crate::services::snapshot_hash::{self, disc_snapshot_hash, review_base_hash_is_stale};
use crate::text::{
    self, cat2, chars_all_hex, chars_of, str_eq, str_is_blank, str_lower, str_trim,
    str_unix_newlines,
};
use crate::unicode::{self, to_lowercase};

verus! {

/// The lock that approvals hold while they look for conflicts.
pub const APPROVAL_CONFLICT_LOCK_KEY: i64 = 0x7667_696e_6465_7801;

/// The discs whose generated names may be that of an approved disc.
pub const GENERATED_NAME_CONFLICT_CANDIDATES_SQL: &'static str =
    "SELECT d.id, d.title, d.disc_number, d.disc_title, d.filename_suffix,
                COALESCE((
                    SELECT array_agg(r.name ORDER BY r.sort_order)
                    FROM disc_regions dr
                    JOIN regions r ON r.code = dr.region_code
                    WHERE dr.disc_id = d.id
                ), ARRAY[]::TEXT[]) AS region_names,
                COALESCE((
                    SELECT array_agg(l.code ORDER BY l.sort_order)
                    FROM disc_languages dl
                    JOIN languages l ON l.code = dl.language_code
                    WHERE dl.disc_id = d.id
                ), ARRAY[]::TEXT[]) AS language_codes
         FROM discs d
         WHERE d.system_code = $1
           AND d.status NOT IN ('Disabled', 'Questionable')
           AND ($2::INT IS NULL OR d.id <> $2)
         ORDER BY d.id";

/// A disc that stands in the way of an approval.
#[derive(Debug, PartialEq, Eq)]
pub struct ApprovalConflict {
    pub text: String,
    pub disc_id: i32,
    pub disc_title: String,
}

/// What a conflict says.
pub struct ConflictView {
    pub text: Seq<char>,
    pub disc_id: i32,
    pub disc_title: Seq<char>,
}

impl View for ApprovalConflict {
    type V = ConflictView;

    open spec fn view(&self) -> ConflictView {
        ConflictView { text: self.text@, disc_id: self.disc_id, disc_title: self.disc_title@ }
    }
}

/// What conflicts say.
pub open spec fn conflict_views(v: Seq<ApprovalConflict>) -> Seq<ConflictView> {
    v.map_values(|c: ApprovalConflict| c@)
}

/// The outcome of an approval.
#[derive(Debug, PartialEq, Eq)]
pub enum ApprovalOutcome {
    Approved(i32),
    AlreadyProcessed,
    StaleDiscState,
    Conflicts(Vec<ApprovalConflict>),
}

/// What an outcome says.
pub enum OutcomeView {
    Approved(i32),
    AlreadyProcessed,
    StaleDiscState,
    Conflicts(Seq<ConflictView>),
}

impl View for ApprovalOutcome {
    type V = OutcomeView;

    open spec fn view(&self) -> OutcomeView {
        match *self {
            ApprovalOutcome::Approved(id) => OutcomeView::Approved(id),
            ApprovalOutcome::AlreadyProcessed => OutcomeView::AlreadyProcessed,
            ApprovalOutcome::StaleDiscState => OutcomeView::StaleDiscState,
            ApprovalOutcome::Conflicts(c) => OutcomeView::Conflicts(conflict_views(c@)),
        }
    }
}

/// The outcome of a moderator's choice of target.
#[derive(Clone, Copy, Debug, PartialEq, Eq, Structural)]
pub enum ManualRetargetOutcome {
    Retargeted,
    TargetNotFound,
    TargetDisabled,
    Unchanged,
    SubmissionChanged,
}

/// The outcome of writing the target of a pending submission.
#[derive(Clone, Copy, Debug, PartialEq, Eq, Structural)]
pub enum PendingTargetUpdateOutcome {
    Updated,
    SubmissionChanged,
}

/// A stored submission, and whether this request stored it.
pub struct SubmissionCreation {
    pub submission: DiscSubmission,
    pub created: bool,
}

/// The outcome of submitting and approving at once.
pub enum DirectSubmissionOutcome {
    Approved(i32),
    Existing(DiscSubmission),
    Conflicts(Vec<ApprovalConflict>),
}

// ── What a request stores ──────────────────────────────────────────────────

/// A token: sixty-four hexadecimal digits, in small letters; blank is none.
pub open spec fn token_field(token: Option<Seq<char>>) -> Result<Option<Seq<char>>, ErrorView> {
    match token {
        None => Ok(None),
        Some(t) => if text::is_blank(t) {
            Ok(None)
        } else if text::trim(t).len() != 64 || !text::all_hex(text::trim(t)) {
            changes::refused("Submission token is invalid. Reload the form and try again."@)
        } else {
            Ok(Some(text::lower_text(text::trim(t))))
        },
    }
}

/// The view of a result that is an optional text.
pub open spec fn opt_text_result(r: Result<Option<String>, AppError>) -> Result<
    Option<Seq<char>>,
    ErrorView,
> {
    match r {
        Ok(v) => Ok(text::opt_text(v)),
        Err(e) => Err(e@),
    }
}

/// Reads a token.
pub fn normalize_submission_token(token: Option<&str>) -> (r: Result<Option<String>, AppError>)
    ensures
        opt_text_result(r) == token_field(text::opt_str(token)),
{
    let token = match token {
        None => {
            return Ok(None);
        },
        Some(t) => t,
    };
    if str_is_blank(token) {
        return Ok(None);
    }
    let trimmed = str_trim(token);
    let chars = chars_of(trimmed.as_str());
    if chars.len() != 64 || !chars_all_hex(&chars) {
        return Err(bad_request("Submission token is invalid. Reload the form and try again."));
    }
    Ok(Some(str_lower(trimmed.as_str())))
}

/// A comment, its newlines unified and trimmed; blank is none.
pub open spec fn comment_field(comment: Option<Seq<char>>) -> Option<Seq<char>> {
    match comment {
        None => None,
        Some(c) => if text::trim(text::unix_newlines(c)).len() == 0 {
            None
        } else {
            Some(text::trim(text::unix_newlines(c)))
        },
    }
}

/// Reads a comment.
pub fn normalize_comment(comment: Option<&str>) -> (r: Option<String>)
    ensures
        text::opt_text(r) == comment_field(text::opt_str(comment)),
{
    match comment {
        None => None,
        Some(c) => {
            let t = str_trim(str_unix_newlines(c).as_str());
            if t.as_str().is_empty() {
                None
            } else {
                Some(t)
            }
        },
    }
}

/// The comment with which a submission is returned to its submitter.
pub open spec fn draft_comment(comment: Seq<char>) -> Result<Seq<char>, ErrorView> {
    match comment_field(Some(comment)) {
        Some(c) => Ok(c),
        None => changes::refused("Review Comment: required when returning a submission to Draft"@),
    }
}

/// The comment with which a submission is returned to its submitter: it is required.
pub fn require_draft_comment(review_comment: &str) -> (r: Result<String, AppError>)
    ensures
        match r {
            Ok(c) => draft_comment(review_comment@) == Ok::<Seq<char>, ErrorView>(c@),
            Err(e) => draft_comment(review_comment@) == Err::<Seq<char>, ErrorView>(e@),
        },
{
    match normalize_comment(Some(review_comment)) {
        Some(c) => Ok(c),
        None => Err(
            bad_request("Review Comment: required when returning a submission to Draft"),
        ),
    }
}

/// What identifies a request: its token, and with a token the fingerprint of its form.
pub struct RequestIdentity {
    pub token: Option<String>,
    pub fingerprint: Option<String>,
}

/// A request with a token must have a fingerprint; one without has none.
pub open spec fn request_identity(token: Option<Seq<char>>, fingerprint: Option<Seq<char>>) -> Result<
    (Option<Seq<char>>, Option<Seq<char>>),
    ErrorView,
> {
    match token_field(token) {
        Err(e) => Err(e),
        Ok(None) => Ok((None, None)),
        Ok(Some(t)) => match token_field(fingerprint) {
            Err(e) => Err(e),
            Ok(None) => changes::refused(
                "Submission fingerprint is missing. Reload the form and try again."@,
            ),
            Ok(Some(f)) => Ok((Some(t), Some(f))),
        },
    }
}

/// Reads what identifies a request.
pub fn read_request_identity(token: Option<&str>, fingerprint: Option<&str>) -> (r: Result<
    RequestIdentity,
    AppError,
>)
    ensures
        match r {
            Ok(v) => request_identity(text::opt_str(token), text::opt_str(fingerprint)) == Ok::<
                (Option<Seq<char>>, Option<Seq<char>>),
                ErrorView,
            >((text::opt_text(v.token), text::opt_text(v.fingerprint))),
            Err(e) => request_identity(text::opt_str(token), text::opt_str(fingerprint)) == Err::<
                (Option<Seq<char>>, Option<Seq<char>>),
                ErrorView,
            >(e@),
        },
{
    let t = match normalize_submission_token(token) {
        Err(e) => {
            return Err(e);
        },
        Ok(None) => {
            return Ok(RequestIdentity { token: None, fingerprint: None });
        },
        Ok(Some(t)) => t,
    };
    match normalize_submission_token(fingerprint) {
        Err(e) => Err(e),
        Ok(None) => Err(
            bad_request("Submission fingerprint is missing. Reload the form and try again."),
        ),
        Ok(Some(f)) => Ok(RequestIdentity { token: Some(t), fingerprint: Some(f) }),
    }
}

/// A stored submission is that of the same request: of the same type, by the same
/// submitter, with the same fingerprint.
pub open spec fn same_request(
    stored: DiscSubmission,
    submission_type: SubmissionType,
    submitter_id: i32,
    fingerprint: Option<Seq<char>>,
) -> bool {
    stored.submission_type == submission_type && stored.submitter_id == submitter_id
        && fingerprint is Some && text::opt_text(stored.submission_fingerprint) == fingerprint
}

/// A repeated request gives back the submission it stored before; another request with
/// the same token is refused.
pub fn settle_repeated_request(
    stored: DiscSubmission,
    submission_type: SubmissionType,
    submitter_id: i32,
    fingerprint: Option<&str>,
) -> (r: Result<SubmissionCreation, AppError>)
    ensures
        match r {
            Ok(c) => same_request(stored, submission_type, submitter_id, text::opt_str(fingerprint))
                && c.submission == stored && !c.created,
            Err(e) => !same_request(stored, submission_type, submitter_id, text::opt_str(fingerprint))
                && e@ == ErrorView::BadRequest(
                "This form was already submitted with different contents. Reload it and try again."@,
            ),
        },
{
    let same_print = match (&stored.submission_fingerprint, fingerprint) {
        (Some(a), Some(b)) => str_eq(a.as_str(), b),
        _ => false,
    };
    if stored.submission_type == submission_type && stored.submitter_id == submitter_id
        && same_print {
        Ok(SubmissionCreation { submission: stored, created: false })
    } else {
        Err(
            bad_request(
                "This form was already submitted with different contents. Reload it and try again.",
            ),
        )
    }
}

/// What storing a submission found.
pub enum InsertOutcome {
    /// The row was stored.
    Inserted(DiscSubmission),
    /// A row with the token was there.
    Conflict(Option<DiscSubmission>),
}

/// What is made of an attempt to store a submission. Only a request with a token can
/// find a row in its place.
pub fn settle_insert(
    outcome: InsertOutcome,
    submission_type: SubmissionType,
    submitter_id: i32,
    fingerprint: Option<&str>,
) -> (r: Result<SubmissionCreation, AppError>)
    ensures
        match outcome {
            InsertOutcome::Inserted(s) => r matches Ok(c) && c.submission == s && c.created,
            InsertOutcome::Conflict(None) => r matches Err(e) && e@ == ErrorView::Internal(
                "submission insert returned no row without an idempotency token"@,
            ),
            InsertOutcome::Conflict(Some(s)) => if same_request(
                s,
                submission_type,
                submitter_id,
                text::opt_str(fingerprint),
            ) {
                r matches Ok(c) && c.submission == s && !c.created
            } else {
                r matches Err(e) && e@ == ErrorView::BadRequest(
                    "This form was already submitted with different contents. Reload it and try again."@,
                )
            },
        },
{
    match outcome {
        InsertOutcome::Inserted(submission) => Ok(SubmissionCreation { submission, created: true }),
        InsertOutcome::Conflict(None) => Err(
            AppError::Internal(
                String::from_str("submission insert returned no row without an idempotency token"),
            ),
        ),
        InsertOutcome::Conflict(Some(stored)) => settle_repeated_request(
            stored,
            submission_type,
            submitter_id,
            fingerprint,
        ),
    }
}

// ── Submitting and approving at once ───────────────────────────────────────

/// What a submission that was there before is answered with.
pub fn direct_outcome_for_existing(submission: DiscSubmission) -> (r: DirectSubmissionOutcome)
    ensures
        r == (if submission.status == SubmissionStatus::Approved
            && submission.target_disc_id is Some {
            DirectSubmissionOutcome::Approved(submission.target_disc_id->0)
        } else {
            DirectSubmissionOutcome::Existing(submission)
        }),
{
    if submission.status == SubmissionStatus::Approved {
        if let Some(disc_id) = submission.target_disc_id {
            return DirectSubmissionOutcome::Approved(disc_id);
        }
    }
    DirectSubmissionOutcome::Existing(submission)
}

/// What follows the storing of a submission that is to be approved at once.
pub enum DirectStep {
    /// Undo everything and answer.
    Answer(DirectSubmissionOutcome),
    /// Approve the submission.
    Approve(DiscSubmission),
}

/// A repeated request that was decided before is answered; any other is approved.
pub fn after_direct_creation(creation: SubmissionCreation) -> (r: DirectStep)
    ensures
        ({
            let s = creation.submission;
            if !creation.created && s.status != SubmissionStatus::Pending {
                r == DirectStep::Answer(
                    if s.status == SubmissionStatus::Approved && s.target_disc_id is Some {
                        DirectSubmissionOutcome::Approved(s.target_disc_id->0)
                    } else {
                        DirectSubmissionOutcome::Existing(s)
                    },
                )
            } else {
                r == DirectStep::Approve(s)
            }
        }),
{
    let pending = creation.submission.status == SubmissionStatus::Pending;
    if !creation.created && !pending {
        DirectStep::Answer(direct_outcome_for_existing(creation.submission))
    } else {
        DirectStep::Approve(creation.submission)
    }
}

/// What follows an approval at once.
pub enum DirectFinish {
    /// Keep everything and answer.
    Commit(i32),
    /// Undo everything and answer with the conflicts.
    Refuse(Vec<ApprovalConflict>),
    /// Undo everything and answer with the submission as it is stored.
    Reread,
}

/// What follows an approval at once.
pub fn after_direct_approval(outcome: ApprovalOutcome) -> (r: DirectFinish)
    ensures
        r == (match outcome {
            ApprovalOutcome::Approved(id) => DirectFinish::Commit(id),
            ApprovalOutcome::Conflicts(c) => DirectFinish::Refuse(c),
            _ => DirectFinish::Reread,
        }),
{
    match outcome {
        ApprovalOutcome::Approved(id) => DirectFinish::Commit(id),
        ApprovalOutcome::Conflicts(c) => DirectFinish::Refuse(c),
        _ => DirectFinish::Reread,
    }
}

/// An approval keeps what it wrote only if it approved; any other outcome, and an
/// error, undoes it.
pub fn approval_commits(outcome: &Result<ApprovalOutcome, AppError>) -> (r: bool)
    ensures
        r == (outcome matches Ok(o) && o is Approved),
{
    match outcome {
        Ok(ApprovalOutcome::Approved(_)) => true,
        _ => false,
    }
}

// ── Whether to approve ─────────────────────────────────────────────────────

/// A review that was begun on another state of the disc is turned away.
pub fn stale_review_approval_outcome(expected_hash: Option<&str>, current_hash: &str) -> (r: Option<
    ApprovalOutcome,
>)
    ensures
        r == (if snapshot_hash::is_stale(text::opt_str(expected_hash), current_hash@) {
            Some(ApprovalOutcome::StaleDiscState)
        } else {
            None
        }),
{
    if review_base_hash_is_stale(expected_hash, current_hash) {
        Some(ApprovalOutcome::StaleDiscState)
    } else {
        None
    }
}

/// A submission is still what its moderator saw: pending, with the same target.
pub fn submission_is_current(
    current_state: Option<(SubmissionStatus, Option<i32>)>,
    target_disc_id: Option<i32>,
) -> (r: bool)
    ensures
        r == (current_state == Some((SubmissionStatus::Pending, target_disc_id))),
{
    match current_state {
        Some((status, target)) => status == SubmissionStatus::Pending && same_id(
            target,
            target_disc_id,
        ),
        None => false,
    }
}

fn same_id(a: Option<i32>, b: Option<i32>) -> (r: bool)
    ensures
        r == (a == b),
{
    match (a, b) {
        (Some(x), Some(y)) => x == y,
        (None, None) => true,
        _ => false,
    }
}

/// What an approval does after the submission and its target were read.
pub enum ApprovalStart {
    /// Answer without writing.
    Stop(ApprovalOutcome),
    /// Look for conflicts and go on.
    Resolved(ApprovalResolution),
}

/// The changes that an approval of a submission applies, and what they leave.
pub open spec fn approval_of(
    sub: DiscSubmission,
    db: JsonView,
    status: Option<DiscStatus>,
    changes: JsonView,
) -> Result<(JsonView, JsonView), ErrorView> {
    match resolution::status_preserved(sub.submission_type, sub.changes@, changes) {
        Err(e) => Err(e),
        Ok(c) => resolution::approval(sub.submission_type, status, db, c),
    }
}

/// What an approval of a submission applies can be applied.
pub open spec fn approval_applies(
    sub: DiscSubmission,
    db: JsonView,
    status: Option<DiscStatus>,
    changes: JsonView,
) -> bool {
    resolution::status_preserved(sub.submission_type, sub.changes@, changes) matches Ok(c) ==> resolution::approvable(
        sub.submission_type,
        status,
        db,
        c,
    )
}

/// The snapshot and the status of the target of an approval.
pub open spec fn target_snapshot(target: Option<(Json, DiscStatus)>) -> JsonView {
    match target {
        Some(t) => (t.0)@,
        None => JsonView::Obj(Seq::empty()),
    }
}

/// The status of the target of an approval.
pub open spec fn target_status_of(target: Option<(Json, DiscStatus)>) -> Option<DiscStatus> {
    match target {
        Some(t) => Some(t.1),
        None => None,
    }
}

/// Begin an approval: a submission that was processed meanwhile and a stale review are
/// answered at once; else the changes are resolved against the target.
pub fn begin_approval(
    sub: &DiscSubmission,
    changes: &Json,
    current_state: Option<(SubmissionStatus, Option<i32>)>,
    target: Option<(Json, DiscStatus)>,
    expected_review_base_hash: Option<&str>,
) -> (r: Result<ApprovalStart, AppError>)
    requires
        target matches Some(t) ==> approval_applies(*sub, (t.0)@, Some(t.1), changes@),
    ensures
        ({
            let db = target_snapshot(target);
            let status = target_status_of(target);
            if current_state != Some((SubmissionStatus::Pending, sub.target_disc_id)) {
                r matches Ok(ApprovalStart::Stop(o)) && o@ == OutcomeView::AlreadyProcessed
            } else if target is Some && snapshot_hash::is_stale(
                text::opt_str(expected_review_base_hash),
                snapshot_hash::snapshot_hash(db),
            ) {
                r matches Ok(ApprovalStart::Stop(o)) && o@ == OutcomeView::StaleDiscState
            } else {
                match approval_of(*sub, db, status, changes@) {
                    Err(x) => r matches Err(e) && e@ == x,
                    Ok(p) => r matches Ok(ApprovalStart::Resolved(a)) && a.changes@ == p.0
                        && a.effective_data@ == p.1 && a.target_status == status,
                }
            }
        }),
{
    if !submission_is_current(current_state, sub.target_disc_id) {
        return Ok(ApprovalStart::Stop(ApprovalOutcome::AlreadyProcessed));
    }
    if let Some(t) = &target {
        let hash = disc_snapshot_hash(&t.0);
        if let Some(outcome) = stale_review_approval_outcome(
            expected_review_base_hash,
            hash.as_str(),
        ) {
            return Ok(ApprovalStart::Stop(outcome));
        }
    }
    let kept = match preserve_submitted_status_change(sub.submission_type, &sub.changes, changes) {
        Err(e) => {
            return Err(e);
        },
        Ok(c) => c,
    };
    match resolve_approval(sub.submission_type, target, &kept) {
        Err(e) => Err(e),
        Ok(a) => Ok(ApprovalStart::Resolved(a)),
    }
}

/// What an approval writes.
#[derive(Debug, PartialEq, Eq)]
pub enum ApprovalWrite {
    /// Update the disc, and name the submitter among its dumpers if it was dumped again.
    Update { disc_id: i32, add_dumper: bool },
    /// Create the disc and make it the target of the submission.
    Create,
}

/// What an approval writes.
pub fn approval_write(sub: &DiscSubmission) -> (r: ApprovalWrite)
    ensures
        r == (match sub.target_disc_id {
            Some(id) => ApprovalWrite::Update {
                disc_id: id,
                add_dumper: sub.submission_type == SubmissionType::Disc,
            },
            None => ApprovalWrite::Create,
        }),
{
    match sub.target_disc_id {
        Some(disc_id) => ApprovalWrite::Update {
            disc_id,
            add_dumper: sub.submission_type == SubmissionType::Disc,
        },
        None => ApprovalWrite::Create,
    }
}

/// What stops an approval after the search for conflicts, if anything does.
pub fn conflict_outcome(conflicts: Vec<ApprovalConflict>) -> (r: Option<ApprovalOutcome>)
    ensures
        r == (if conflicts@.len() > 0 {
            Some(ApprovalOutcome::Conflicts(conflicts))
        } else {
            None
        }),
{
    if conflicts.len() > 0 {
        Some(ApprovalOutcome::Conflicts(conflicts))
    } else {
        None
    }
}

/// What stops an approval after it tried to claim the submission: no row was claimed.
pub fn claim_outcome(rows_affected: u64) -> (r: Option<ApprovalOutcome>)
    ensures
        r == (if rows_affected == 0 {
            Some(ApprovalOutcome::AlreadyProcessed)
        } else {
            None
        }),
{
    if rows_affected == 0 {
        Some(ApprovalOutcome::AlreadyProcessed)
    } else {
        None
    }
}

/// The systems whose archives an approval makes out of date: the disc's system before
/// it and after it, each once.
pub open spec fn stale_systems(before: Option<Seq<char>>, after: Option<Seq<char>>) -> Seq<
    Seq<char>,
> {
    match (before, after) {
        (Some(a), Some(b)) => if a == b {
            seq![a]
        } else {
            seq![a, b]
        },
        (Some(a), None) => seq![a],
        (None, Some(b)) => seq![b],
        (None, None) => Seq::empty(),
    }
}

/// The systems whose archives an approval makes out of date.
pub fn dirty_systems(previous: Option<String>, current: Option<String>) -> (r: Vec<String>)
    ensures
        text::texts(r@) == stale_systems(text::opt_text(previous), text::opt_text(current)),
{
    let mut out: Vec<String> = Vec::new();
    match (previous, current) {
        (Some(a), Some(b)) => {
            let same = str_eq(a.as_str(), b.as_str());
            let ghost va = a@;
            let ghost vb = b@;
            out.push(a);
            if !same {
                out.push(b);
                assert(text::texts(out@) =~= seq![va, vb]);
            } else {
                assert(text::texts(out@) =~= seq![va]);
            }
        },
        (Some(a), None) => {
            let ghost va = a@;
            out.push(a);
            assert(text::texts(out@) =~= seq![va]);
        },
        (None, Some(b)) => {
            let ghost vb = b@;
            out.push(b);
            assert(text::texts(out@) =~= seq![vb]);
        },
        (None, None) => {
            assert(text::texts(out@) =~= Seq::<Seq<char>>::empty());
        },
    }
    out
}

// ── Conflicts ──────────────────────────────────────────────────────────────

/// Whether a submission would verify a disabled disc.
pub fn disabled_verification_target(
    submission_type: SubmissionType,
    target_status: Option<DiscStatus>,
) -> (r: bool)
    ensures
        r == (submission_type == SubmissionType::Disc && target_status == Some(
            DiscStatus::Disabled,
        )),
{
    submission_type == SubmissionType::Disc && match target_status {
        Some(s) => s == DiscStatus::Disabled,
        None => false,
    }
}

/// The status that a snapshot gives is not that of a disabled disc.
pub open spec fn is_active(effective: JsonView) -> bool {
    json::as_text(json::field(effective, "status"@)) != Some("Disabled"@)
}

/// The status that a snapshot gives admits the disc to the archives.
pub open spec fn is_archived(effective: JsonView) -> bool {
    is_active(effective) && json::as_text(json::field(effective, "status"@)) != Some("Questionable"@)
}

fn status_is(effective_data: &Json, name: &str) -> (r: bool)
    ensures
        r == (json::as_text(json::field(effective_data@, "status"@)) == Some(name@)),
{
    match effective_data.field("status").as_str() {
        Some(s) => str_eq(s, name),
        None => false,
    }
}

/// Whether the disc would be active.
pub fn effective_disc_is_active(effective_data: &Json) -> (r: bool)
    ensures
        r == is_active(effective_data@),
{
    !status_is(effective_data, "Disabled")
}

/// Whether the disc would be in the archives.
pub fn effective_disc_is_archive_eligible(effective_data: &Json) -> (r: bool)
    ensures
        r == is_archived(effective_data@),
{
    !status_is(effective_data, "Disabled") && !status_is(effective_data, "Questionable")
}

/// A field to search by: its trimmed text, if the changes name it and it is not blank.
pub open spec fn conflict_input(changes: JsonView, effective: JsonView, key: Seq<char>) -> Option<
    Seq<char>,
> {
    if resolution::names_field(changes, key) {
        disc_match::search_input(json::as_text(json::field(effective, key)))
    } else {
        None
    }
}

/// The files to search by, if the changes name them.
pub fn dat_hash_conflict_input(changes: &Json, effective_data: &Json) -> (r: Option<String>)
    ensures
        text::opt_text(r) == conflict_input(changes@, effective_data@, "dat"@),
{
    if !change_set_contains(changes, "dat") {
        return None;
    }
    nonempty_input(effective_data.field("dat").as_str())
}

/// The universal hash to search by, if the changes name it.
pub fn universal_hash_conflict_input(changes: &Json, effective_data: &Json) -> (r: Option<String>)
    ensures
        text::opt_text(r) == conflict_input(changes@, effective_data@, "universal_hash"@),
{
    if !change_set_contains(changes, "universal_hash") {
        return None;
    }
    nonempty_input(effective_data.field("universal_hash").as_str())
}

/// Texts, trimmed, without the blank ones.
pub open spec fn trimmed_nonblank(v: Seq<Seq<char>>) -> Seq<Seq<char>>
    decreases v.len(),
{
    if v.len() == 0 {
        Seq::empty()
    } else {
        let before = trimmed_nonblank(v.drop_last());
        if text::trim(v.last()).len() == 0 {
            before
        } else {
            before.push(text::trim(v.last()))
        }
    }
}

/// The texts of a list, trimmed, without the blank ones.
pub fn json_nonempty_strings(value: &Json) -> (r: Vec<String>)
    ensures
        text::texts(r@) == trimmed_nonblank(json::list_texts(json::list_or_empty(value@))),
{
    let all: Vec<String> = match value {
        Json::Array(l) => array_texts(l),
        _ => Vec::new(),
    };
    let ghost ts = text::texts(all@);
    assert(ts =~= json::list_texts(json::list_or_empty(value@)));
    let mut out: Vec<String> = Vec::new();
    assert(ts.take(0) =~= Seq::<Seq<char>>::empty());
    assert(text::texts(out@) =~= Seq::<Seq<char>>::empty());
    for i in 0..all.len()
        invariant
            ts == text::texts(all@),
            text::texts(out@) == trimmed_nonblank(ts.take(i as int)),
    {
        proof {
            assert(ts.take(i + 1).drop_last() =~= ts.take(i as int));
            assert(ts.take(i + 1).last() == all@[i as int]@);
        }
        let t = str_trim(all[i].as_str());
        if !t.as_str().is_empty() {
            let ghost before = out@;
            out.push(t);
            assert(text::texts(out@) =~= text::texts(before).push(t@));
        }
    }
    assert(ts.take(ts.len() as int) =~= ts);
    out
}

/// What names are compared by.
pub fn generated_name_key(name: &str) -> (r: String)
    ensures
        r@ == unicode::lowercase(name@),
{
    to_lowercase(name)
}

/// The name of a disc, its parts trimmed and the blank ones left out.
pub open spec fn generated_name(
    title: Seq<char>,
    regions: Seq<Seq<char>>,
    languages: Seq<Seq<char>>,
    number: Option<Seq<char>>,
    disc_title: Option<Seq<char>>,
    suffix: Option<Seq<char>>,
) -> Seq<char> {
    naming::rom_base_name(
        text::trim(title),
        regions,
        languages,
        disc_match::search_input(number),
        disc_match::search_input(disc_title),
        disc_match::search_input(suffix),
    )
}

fn text_of(s: &Option<String>) -> (r: Option<&str>)
    ensures
        text::opt_str(r) == text::opt_text(*s),
{
    match s {
        Some(t) => Some(t.as_str()),
        None => None,
    }
}

/// The name of a disc, its parts trimmed and the blank ones left out.
pub fn generated_disc_name(
    title: &str,
    region_names: &Vec<String>,
    language_codes: &Vec<String>,
    disc_number: Option<&str>,
    disc_title: Option<&str>,
    filename_suffix: Option<&str>,
) -> (r: String)
    ensures
        r@ == generated_name(
            title@,
            text::texts(region_names@),
            text::texts(language_codes@),
            text::opt_str(disc_number),
            text::opt_str(disc_title),
            text::opt_str(filename_suffix),
        ),
{
    let t = str_trim(title);
    let n = nonempty_input(disc_number);
    let d = nonempty_input(disc_title);
    let s = nonempty_input(filename_suffix);
    build_rom_base_name(
        t.as_str(),
        region_names,
        language_codes,
        text_of(&n),
        text_of(&d),
        text_of(&s),
    )
}

/// What the search for a disc of the same name asks the database for.
pub struct NameQuery {
    pub system_code: String,
    pub title: String,
    pub regions: Vec<String>,
    pub languages: Vec<String>,
}

/// The query of the search for a disc of the same name; a disc without a system or a
/// title has no name.
pub fn name_query(effective_data: &Json) -> (r: Option<NameQuery>)
    ensures
        ({
            let system = text::trim(json::text_or_empty(json::field(effective_data@, "system_code"@)));
            let title = text::trim(json::text_or_empty(json::field(effective_data@, "title"@)));
            match r {
                None => system.len() == 0 || title.len() == 0,
                Some(q) => {
                    &&& system.len() > 0
                    &&& title.len() > 0
                    &&& q.system_code@ == system
                    &&& q.title@ == title
                    &&& text::texts(q.regions@) == trimmed_nonblank(
                        json::list_texts(json::list_or_empty(json::field(effective_data@, "regions"@))),
                    )
                    &&& text::texts(q.languages@) == trimmed_nonblank(
                        json::list_texts(json::list_or_empty(json::field(effective_data@, "languages"@))),
                    )
                },
            }
        }),
{
    let system_code = str_trim(effective_data.field("system_code").str_or_empty());
    let title = str_trim(effective_data.field("title").str_or_empty());
    if system_code.as_str().is_empty() || title.as_str().is_empty() {
        return None;
    }
    Some(
        NameQuery {
            system_code,
            title,
            regions: json_nonempty_strings(effective_data.field("regions")),
            languages: json_nonempty_strings(effective_data.field("languages")),
        },
    )
}

/// A disc whose name may be that of an approved disc.
pub struct NameCandidate {
    pub id: i32,
    pub title: String,
    pub disc_number: Option<String>,
    pub disc_title: Option<String>,
    pub filename_suffix: Option<String>,
    pub region_names: Vec<String>,
    pub language_codes: Vec<String>,
}

/// The name of a candidate.
pub open spec fn candidate_name(c: NameCandidate) -> Seq<char> {
    generated_name(
        c.title@,
        text::texts(c.region_names@),
        text::texts(c.language_codes@),
        text::opt_text(c.disc_number),
        text::opt_text(c.disc_title),
        text::opt_text(c.filename_suffix),
    )
}

/// The first candidate from `i` on with a name, in whatever case.
pub open spec fn same_name_from(cs: Seq<NameCandidate>, name: Seq<char>, i: int) -> Option<int>
    decreases cs.len() - i,
{
    if i < 0 || i >= cs.len() {
        None
    } else if unicode::lowercase(candidate_name(cs[i])) == unicode::lowercase(name) {
        Some(i)
    } else {
        same_name_from(cs, name, i + 1)
    }
}

/// The name that an approved disc would have.
pub open spec fn proposed_name(
    effective: JsonView,
    regions: Seq<Seq<char>>,
    languages: Seq<Seq<char>>,
) -> Seq<char> {
    generated_name(
        text::trim(json::text_or_empty(json::field(effective, "title"@))),
        regions,
        languages,
        json::as_text(json::field(effective, "disc_number"@)),
        json::as_text(json::field(effective, "disc_title"@)),
        json::as_text(json::field(effective, "filename_suffix"@)),
    )
}

/// The conflict with a disc of the same name, if a candidate has it.
pub open spec fn name_conflict(
    effective: JsonView,
    regions: Seq<Seq<char>>,
    languages: Seq<Seq<char>>,
    cs: Seq<NameCandidate>,
) -> Option<ConflictView> {
    match same_name_from(cs, proposed_name(effective, regions, languages), 0) {
        None => None,
        Some(i) => Some(
            ConflictView {
                text: "Generated name already exists:"@,
                disc_id: cs[i].id,
                disc_title: candidate_name(cs[i]),
            },
        ),
    }
}

/// The view of an optional conflict.
pub open spec fn opt_conflict(c: Option<ApprovalConflict>) -> Option<ConflictView> {
    match c {
        Some(x) => Some(x@),
        None => None,
    }
}

/// The conflict with a disc of the same name. The names of the regions and the codes of
/// the languages are those that the database has for the codes of the snapshot.
pub fn choose_name_conflict(
    effective_data: &Json,
    region_names: &Vec<String>,
    language_codes: &Vec<String>,
    candidates: &Vec<NameCandidate>,
) -> (r: Option<ApprovalConflict>)
    ensures
        opt_conflict(r) == name_conflict(
            effective_data@,
            text::texts(region_names@),
            text::texts(language_codes@),
            candidates@,
        ),
{
    let title = str_trim(effective_data.field("title").str_or_empty());
    let proposed = generated_disc_name(
        title.as_str(),
        region_names,
        language_codes,
        effective_data.field("disc_number").as_str(),
        effective_data.field("disc_title").as_str(),
        effective_data.field("filename_suffix").as_str(),
    );
    let key = generated_name_key(proposed.as_str());
    let ghost name = proposed@;
    for i in 0..candidates.len()
        invariant
            name == proposed_name(effective_data@, text::texts(region_names@), text::texts(language_codes@)),
            key@ == unicode::lowercase(name),
            same_name_from(candidates@, name, i as int) == same_name_from(candidates@, name, 0),
    {
        let c = &candidates[i];
        let candidate = generated_disc_name(
            c.title.as_str(),
            &c.region_names,
            &c.language_codes,
            text_of(&c.disc_number),
            text_of(&c.disc_title),
            text_of(&c.filename_suffix),
        );
        let candidate_key = generated_name_key(candidate.as_str());
        if str_eq(candidate_key.as_str(), key.as_str()) {
            return Some(
                ApprovalConflict {
                    text: String::from_str("Generated name already exists:"),
                    disc_id: c.id,
                    disc_title: candidate,
                },
            );
        }
    }
    None
}

/// The searches for conflicts that an approval makes.
pub struct ConflictSearches {
    pub by_name: bool,
    pub by_files: Option<String>,
    pub by_universal_hash: Option<String>,
}

/// How conflicts are looked for.
pub enum ConflictPlan {
    /// The target is disabled: that is the one conflict.
    DisabledTarget(i32),
    /// Nothing is looked for.
    Nothing,
    /// The searches to make.
    Search(ConflictSearches),
}

/// How conflicts of an approval are looked for: a disabled disc is not verified; a disc
/// that would be disabled has no conflicts; the name is compared for discs in the
/// archives, files and universal hash where the changes name them.
pub fn plan_conflict_searches(
    submission_type: SubmissionType,
    target_disc_id: Option<i32>,
    target_status: Option<DiscStatus>,
    changes: &Json,
    effective_data: &Json,
) -> (r: Result<ConflictPlan, AppError>)
    ensures
        if submission_type == SubmissionType::Disc && target_status == Some(DiscStatus::Disabled) {
            match target_disc_id {
                Some(id) => r matches Ok(ConflictPlan::DisabledTarget(d)) && d == id,
                None => r matches Err(e) && e@ == ErrorView::Internal(
                    "disabled verification target is missing a disc ID"@,
                ),
            }
        } else if !is_active(effective_data@) {
            r matches Ok(ConflictPlan::Nothing)
        } else {
            r matches Ok(ConflictPlan::Search(s)) && s.by_name == is_archived(effective_data@)
                && text::opt_text(s.by_files) == conflict_input(changes@, effective_data@, "dat"@)
                && text::opt_text(s.by_universal_hash) == conflict_input(
                changes@,
                effective_data@,
                "universal_hash"@,
            )
        },
{
    if disabled_verification_target(submission_type, target_status) {
        return match target_disc_id {
            Some(id) => Ok(ConflictPlan::DisabledTarget(id)),
            None => Err(
                AppError::Internal(
                    String::from_str("disabled verification target is missing a disc ID"),
                ),
            ),
        };
    }
    if !effective_disc_is_active(effective_data) {
        return Ok(ConflictPlan::Nothing);
    }
    Ok(
        ConflictPlan::Search(
            ConflictSearches {
                by_name: effective_disc_is_archive_eligible(effective_data),
                by_files: dat_hash_conflict_input(changes, effective_data),
                by_universal_hash: universal_hash_conflict_input(changes, effective_data),
            },
        ),
    )
}

/// The conflict with a disabled target.
pub fn disabled_target_conflict(disc_id: i32, disc_title: String) -> (r: ApprovalConflict)
    ensures
        r@ == (ConflictView {
            text: "Verification target is disabled:"@,
            disc_id,
            disc_title: disc_title@,
        }),
{
    ApprovalConflict {
        text: String::from_str("Verification target is disabled:"),
        disc_id,
        disc_title,
    }
}

/// The conflicts that the searches found, in the order of the searches.
pub open spec fn found_conflicts(
    by_name: Option<ConflictView>,
    by_files: Option<(i32, Seq<char>)>,
    by_hash: Option<(i32, Seq<char>)>,
) -> Seq<ConflictView> {
    (match by_name {
        Some(c) => seq![c],
        None => Seq::empty(),
    }) + (match by_files {
        Some(d) => seq![
            ConflictView {
                text: "DAT hashes already exist:"@,
                disc_id: d.0,
                disc_title: d.1,
            },
        ],
        None => Seq::empty(),
    }) + (match by_hash {
        Some(d) => seq![
            ConflictView {
                text: "Universal hash already exists:"@,
                disc_id: d.0,
                disc_title: d.1,
            },
        ],
        None => Seq::empty(),
    })
}

/// Some conflict is with a disc of an id and a title.
pub open spec fn conflict_names(cs: Seq<ConflictView>, id: i32, title: Seq<char>) -> bool {
    exists|i: int|
        0 <= i < cs.len() && (#[trigger] cs[i]).disc_id == id && cs[i].disc_title == title
}

/// Some conflict is with a disc of an id and a title.
pub open spec fn names_disc(cs: Seq<ApprovalConflict>, id: i32, title: Seq<char>) -> bool {
    exists|i: int|
        0 <= i < cs.len() && (#[trigger] cs[i]).disc_id == id && cs[i].disc_title@ == title
}

/// The view of a found disc.
pub open spec fn found_disc(d: Option<(i32, String)>) -> Option<(i32, Seq<char>)> {
    match d {
        Some(x) => Some((x.0, (x.1)@)),
        None => None,
    }
}

/// The conflicts that the searches found.
pub fn collect_conflicts(
    by_name: Option<ApprovalConflict>,
    by_files: Option<(i32, String)>,
    by_universal_hash: Option<(i32, String)>,
) -> (r: Vec<ApprovalConflict>)
    ensures
        conflict_views(r@) == found_conflicts(
            opt_conflict(by_name),
            found_disc(by_files),
            found_disc(by_universal_hash),
        ),
        r@.len() == 0 <==> by_name is None && by_files is None && by_universal_hash is None,
        by_name matches Some(c) ==> names_disc(r@, c.disc_id, c.disc_title@),
        by_files matches Some(d) ==> names_disc(r@, d.0, d.1@),
        by_universal_hash matches Some(d) ==> names_disc(r@, d.0, d.1@),
{
    let mut out: Vec<ApprovalConflict> = Vec::new();
    if let Some(c) = by_name {
        out.push(c);
    }
    if let Some((disc_id, disc_title)) = by_files {
        out.push(
            ApprovalConflict {
                text: String::from_str("DAT hashes already exist:"),
                disc_id,
                disc_title,
            },
        );
    }
    if let Some((disc_id, disc_title)) = by_universal_hash {
        out.push(
            ApprovalConflict {
                text: String::from_str("Universal hash already exists:"),
                disc_id,
                disc_title,
            },
        );
    }
    assert(conflict_views(out@) =~= found_conflicts(
        opt_conflict(by_name),
        found_disc(by_files),
        found_disc(by_universal_hash),
    ));
    proof {
        law_every_found_disc_is_a_conflict(
            opt_conflict(by_name),
            found_disc(by_files),
            found_disc(by_universal_hash),
        );
        assert forall|id: i32, title: Seq<char>|
            conflict_names(conflict_views(out@), id, title) implies #[trigger] names_disc(
            out@,
            id,
            title,
        ) by {
            let vs = conflict_views(out@);
            let i = choose|i: int|
                0 <= i < vs.len() && (#[trigger] vs[i]).disc_id == id && vs[i].disc_title == title;
            assert(vs[i] == out@[i]@);
        }
    }
    out
}

/// What is known of the disc that a conflict names.
pub struct ConflictDisc {
    pub title: String,
    pub disc_number: Option<String>,
    pub disc_title: Option<String>,
    pub filename_suffix: Option<String>,
    pub has_disc_number: bool,
    pub has_disc_title: bool,
}

/// The title of the disc that a conflict names, or its number where it is not known.
pub fn conflict_disc_title(disc_id: i32, row: &Option<ConflictDisc>) -> (r: String)
    ensures
        r@ == (match *row {
            None => "disc #"@ + numbers::int_text(disc_id as int),
            Some(d) => naming::display_title(
                d.title@,
                if d.has_disc_number {
                    text::opt_text(d.disc_number)
                } else {
                    None
                },
                if d.has_disc_title {
                    text::opt_text(d.disc_title)
                } else {
                    None
                },
                text::opt_text(d.filename_suffix),
            ),
        }),
{
    match row {
        None => cat2("disc #", write_i64(disc_id as i64).as_str()),
        Some(d) => format_display_title(
            d.title.as_str(),
            if d.has_disc_number {
                text_of(&d.disc_number)
            } else {
                None
            },
            if d.has_disc_title {
                text_of(&d.disc_title)
            } else {
                None
            },
            text_of(&d.filename_suffix),
        ),
    }
}

// ── Targets ────────────────────────────────────────────────────────────────

/// Whether a pending submission's target was written: exactly one row was.
pub fn pending_target_update_outcome(rows_affected: u64) -> (r: PendingTargetUpdateOutcome)
    ensures
        r == (if rows_affected == 1 {
            PendingTargetUpdateOutcome::Updated
        } else {
            PendingTargetUpdateOutcome::SubmissionChanged
        }),
{
    if rows_affected == 1 {
        PendingTargetUpdateOutcome::Updated
    } else {
        PendingTargetUpdateOutcome::SubmissionChanged
    }
}

/// A submission may be pointed at the disc that its moderator was shown only while the
/// searches still agree on that disc.
pub fn match_is_still(found: Option<i32>, expected_target_disc_id: i32) -> (r: bool)
    ensures
        r == (found == Some(expected_target_disc_id)),
{
    match found {
        Some(id) => id == expected_target_disc_id,
        None => false,
    }
}

/// What a moderator's choice of target does next.
#[derive(Clone, Copy, Debug, PartialEq, Eq, Structural)]
pub enum RetargetStep {
    /// Undo everything and answer.
    Stop(ManualRetargetOutcome),
    /// Read the status of the disc.
    ReadStatus(i32),
    /// Write the target.
    Write,
}

/// What follows the reading of a pending submission: one that is gone or was pointed
/// elsewhere is left alone, as is one that has the target.
pub fn retarget_after_read(current_target: Option<Option<i32>>, target_disc_id: Option<i32>) -> (r:
    RetargetStep)
    ensures
        r == (match current_target {
            None => RetargetStep::Stop(ManualRetargetOutcome::SubmissionChanged),
            Some(t) => if t == target_disc_id {
                RetargetStep::Stop(ManualRetargetOutcome::Unchanged)
            } else {
                match target_disc_id {
                    Some(id) => RetargetStep::ReadStatus(id),
                    None => RetargetStep::Write,
                }
            },
        }),
{
    match current_target {
        None => RetargetStep::Stop(ManualRetargetOutcome::SubmissionChanged),
        Some(t) => if same_id(t, target_disc_id) {
            RetargetStep::Stop(ManualRetargetOutcome::Unchanged)
        } else {
            match target_disc_id {
                Some(id) => RetargetStep::ReadStatus(id),
                None => RetargetStep::Write,
            }
        },
    }
}

/// What follows the reading of the target's status.
pub fn retarget_after_status(target_status: Option<DiscStatus>) -> (r: RetargetStep)
    ensures
        r == (match target_status {
            None => RetargetStep::Stop(ManualRetargetOutcome::TargetNotFound),
            Some(DiscStatus::Disabled) => RetargetStep::Stop(
                ManualRetargetOutcome::TargetDisabled,
            ),
            Some(_) => RetargetStep::Write,
        }),
{
    match target_status {
        None => RetargetStep::Stop(ManualRetargetOutcome::TargetNotFound),
        Some(s) => match s {
            DiscStatus::Disabled => RetargetStep::Stop(ManualRetargetOutcome::TargetDisabled),
            _ => RetargetStep::Write,
        },
    }
}

/// What follows the writing of the target.
pub fn retarget_after_write(outcome: PendingTargetUpdateOutcome) -> (r: ManualRetargetOutcome)
    ensures
        r == (match outcome {
            PendingTargetUpdateOutcome::Updated => ManualRetargetOutcome::Retargeted,
            PendingTargetUpdateOutcome::SubmissionChanged => ManualRetargetOutcome::SubmissionChanged,
        }),
{
    match outcome {
        PendingTargetUpdateOutcome::Updated => ManualRetargetOutcome::Retargeted,
        PendingTargetUpdateOutcome::SubmissionChanged => ManualRetargetOutcome::SubmissionChanged,
    }
}

// ── Laws ───────────────────────────────────────────────────────────────────

/// Every disc that a search found is one of the conflicts, and every conflict is with a disc
/// that a search found: there are none only where no search found any, and as many as
/// searches found one.
pub proof fn law_every_found_disc_is_a_conflict(
    by_name: Option<ConflictView>,
    by_files: Option<(i32, Seq<char>)>,
    by_hash: Option<(i32, Seq<char>)>,
)
    ensures
        ({
            let cs = found_conflicts(by_name, by_files, by_hash);
            let n = (if by_name is Some {
                1int
            } else {
                0
            }) + (if by_files is Some {
                1int
            } else {
                0
            }) + (if by_hash is Some {
                1int
            } else {
                0
            });
            &&& cs.len() == n
            &&& cs.len() == 0 <==> by_name is None && by_files is None && by_hash is None
            &&& by_name matches Some(c) ==> cs.contains(c) && cs[0] == c
            &&& by_name matches Some(c) ==> conflict_names(cs, c.disc_id, c.disc_title)
            &&& by_files matches Some(d) ==> conflict_names(cs, d.0, d.1)
            &&& by_hash matches Some(d) ==> conflict_names(cs, d.0, d.1)
            &&& by_hash matches Some(d) ==> cs.last().disc_id == d.0 && cs.last().disc_title == d.1
            &&& forall|i: int|
                0 <= i < cs.len() ==> {
                    ||| by_name == Some(#[trigger] cs[i])
                    ||| by_files == Some((cs[i].disc_id, cs[i].disc_title))
                    ||| by_hash == Some((cs[i].disc_id, cs[i].disc_title))
                }
        }),
{
    let cs = found_conflicts(by_name, by_files, by_hash);
    let f = if by_name is Some {
        1int
    } else {
        0
    };
    let h = f + if by_files is Some {
        1int
    } else {
        0
    };
    if let Some(c) = by_name {
        assert(cs[0] == c);
    }
    if let Some(d) = by_files {
        assert(cs[f].disc_id == d.0 && cs[f].disc_title == d.1);
    }
    if let Some(d) = by_hash {
        assert(cs[h].disc_id == d.0 && cs[h].disc_title == d.1);
    }
}

/// Two searches that found different discs for the files and for the universal hash give
/// conflicts that say which of them it was.
pub proof fn law_conflicts_say_what_was_found(
    a: (i32, Seq<char>),
    b: (i32, Seq<char>),
    by_name: Option<ConflictView>,
)
    ensures
        found_conflicts(None, Some(a), None)[0].text != found_conflicts(None, None, Some(b))[0].text,
        found_conflicts(None, Some(a), Some(b))[0] == found_conflicts(None, Some(a), None)[0],
        found_conflicts(None, Some(a), Some(b))[1] == found_conflicts(None, None, Some(b))[0],
        found_conflicts(by_name, Some(a), Some(b)).last() == found_conflicts(None, None, Some(b))[0],
{
    reveal_strlit("DAT hashes already exist:");
    reveal_strlit("Universal hash already exists:");
    assert("DAT hashes already exist:"@.len() == 25);
    assert("Universal hash already exists:"@.len() == 30);
}

/// A disc has the name that an approval would give exactly if the approval is in conflict
/// with one of that name; the conflict is with the first such disc.
pub proof fn law_same_name_is_a_conflict(
    effective: JsonView,
    regions: Seq<Seq<char>>,
    languages: Seq<Seq<char>>,
    cs: Seq<NameCandidate>,
)
    ensures
        ({
            let name = unicode::lowercase(proposed_name(effective, regions, languages));
            match name_conflict(effective, regions, languages, cs) {
                None => forall|i: int|
                    0 <= i < cs.len() ==> unicode::lowercase(candidate_name(#[trigger] cs[i])) != name,
                Some(c) => exists|i: int|
                    {
                        &&& 0 <= i < cs.len()
                        &&& (#[trigger] cs[i]).id == c.disc_id
                        &&& candidate_name(cs[i]) == c.disc_title
                        &&& unicode::lowercase(c.disc_title) == name
                        &&& forall|j: int|
                            0 <= j < i ==> unicode::lowercase(candidate_name(#[trigger] cs[j])) != name
                    },
            }
        }),
{
    lemma_same_name_from(cs, proposed_name(effective, regions, languages), 0);
}

proof fn lemma_same_name_from(cs: Seq<NameCandidate>, name: Seq<char>, i: int)
    requires
        0 <= i,
    ensures
        match same_name_from(cs, name, i) {
            None => forall|j: int|
                i <= j < cs.len() ==> unicode::lowercase(candidate_name(#[trigger] cs[j])) != unicode::lowercase(
                    name,
                ),
            Some(k) => {
                &&& i <= k < cs.len()
                &&& unicode::lowercase(candidate_name(cs[k])) == unicode::lowercase(name)
                &&& forall|j: int|
                    i <= j < k ==> unicode::lowercase(candidate_name(#[trigger] cs[j])) != unicode::lowercase(name)
            },
        },
    decreases cs.len() - i,
{
    if i < cs.len() && unicode::lowercase(candidate_name(cs[i])) != unicode::lowercase(name) {
        lemma_same_name_from(cs, name, i + 1);
    }
}

/// The archives of a disc's system are out of date before and after an approval, those of
/// no other system are, and none is named twice.
pub proof fn law_stale_systems(before: Option<Seq<char>>, after: Option<Seq<char>>, s: Seq<char>)
    ensures
        stale_systems(before, after).contains(s) <==> before == Some(s) || after == Some(s),
        stale_systems(before, after).no_duplicates(),
{
    let v = stale_systems(before, after);
    if before == Some(s) {
        assert(v[0] == s);
    }
    if after == Some(s) {
        assert(v[v.len() - 1] == s);
    }
}

/// A text is searched for exactly if the changes name its field and it is not blank, and
/// without the space around it.
pub proof fn law_searched_texts(changes: JsonView, effective: JsonView, key: Seq<char>, t: Seq<char>)
    requires
        json::field(effective, key) == JsonView::Str(t),
    ensures
        !resolution::names_field(changes, key) ==> conflict_input(changes, effective, key) is None,
        resolution::names_field(changes, key) && text::trim(t).len() == 0 ==> conflict_input(changes, effective, key)
            is None,
        resolution::names_field(changes, key) && text::trim(t).len() > 0 ==> conflict_input(changes, effective, key)
            == Some(text::trim(t)),
{
}

/// Only a disabled disc is not active, and of the active ones only a questionable one is
/// not in the archives.
pub proof fn law_which_discs_are_archived(effective: JsonView, status: Seq<char>)
    requires
        json::field(effective, "status"@) == JsonView::Str(status),
    ensures
        is_active(effective) <==> status != "Disabled"@,
        is_archived(effective) <==> status != "Disabled"@ && status != "Questionable"@,
{
}

/// A request is repeated only by the same submitter, for the same type, with the same
/// fingerprint.
pub proof fn law_repeated_requests(
    stored: DiscSubmission,
    submission_type: SubmissionType,
    submitter_id: i32,
    f: Seq<char>,
)
    ensures
        !same_request(stored, submission_type, submitter_id, None),
        stored.submitter_id != submitter_id ==> !same_request(
            stored,
            submission_type,
            submitter_id,
            Some(f),
        ),
        stored.submission_type != submission_type ==> !same_request(
            stored,
            submission_type,
            submitter_id,
            Some(f),
        ),
        text::opt_text(stored.submission_fingerprint) != Some(f) ==> !same_request(
            stored,
            submission_type,
            submitter_id,
            Some(f),
        ),
        text::opt_text(stored.submission_fingerprint) == Some(f) ==> same_request(
            stored,
            stored.submission_type,
            stored.submitter_id,
            Some(f),
        ),
{
}

/// A token is read as itself in small letters, without the space around it, exactly if it
/// is sixty-four hexadecimal digits.
pub proof fn law_tokens_read(t: Seq<char>)
    ensures
        text::trim(t).len() == 64 && text::all_hex(text::trim(t)) ==> token_field(Some(t)) == Ok::<
            Option<Seq<char>>,
            ErrorView,
        >(Some(text::lower_text(text::trim(t)))),
        text::trim(t).len() == 0 ==> token_field(Some(t)) == Ok::<Option<Seq<char>>, ErrorView>(None),
        text::trim(t).len() > 0 && !(text::trim(t).len() == 64 && text::all_hex(text::trim(t))) ==> token_field(Some(t))
            is Err,
        request_identity(Some(t), None) is Ok ==> request_identity(Some(t), None)->Ok_0.0 is None,
{
}

/// A token is read to itself once it was read.
pub proof fn law_tokens_are_stable(token: Seq<char>)
    ensures
        token_field(Some(token)) matches Ok(Some(t)) ==> token_field(Some(t)) == Ok::<
            Option<Seq<char>>,
            ErrorView,
        >(Some(t)),
{
    if let Ok(Some(t)) = token_field(Some(token)) {
        let s = text::trim(token);
        assert forall|i: int| 0 <= i < t.len() implies text::is_hex(#[trigger] t[i]) && text::lower(t[i])
            == t[i] && !text::is_space(t[i]) by {
            assert(text::is_hex(s[i]));
            assert(t[i] == text::lower(s[i]));
        }
        assert(text::trim(t) == t);
        assert(text::lower_text(t) =~= t);
    }
}

/// A comment that was read is trimmed and not empty.
pub proof fn law_comments_are_trimmed(comment: Seq<char>)
    ensures
        comment_field(Some(comment)) matches Some(c) ==> text::trim(c) == c && c.len() > 0,
{
    text::lemma_trim_idempotent(text::unix_newlines(comment));
}

} // verus!
