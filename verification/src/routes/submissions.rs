//! The plain pages of submissions.

use vstd::prelude::*;

use crate::clock::{self, MINUTE, write_time};
use crate::error::{AppError, ErrorView};
use crate::json;
use crate::json_text::{self, write_pretty};
use crate::models::{AuthenticatedUser, DiscSubmission, SubmissionStatus, UserRole};
use crate::numbers::{self, write_i64};
use crate::routes::review_template;
use crate::services::submission_service::PlainFilter;
use crate::text::{self, cat3};

verus! {

/// The number of submissions on a page.
pub const PLAIN_PAGE_SIZE: i64 = 50;

/// What a request asks of the list.
#[derive(Debug)]
pub struct SubmissionsQuery {
    pub status: Option<String>,
    pub sub_type: Option<String>,
    pub page: Option<i64>,
}

/// A decision on a submission.
#[derive(Debug)]
pub struct ReviewForm {
    pub action: String,
    pub comment: Option<String>,
}

/// The page of a list, and what restricts it: whoever may not decide on submissions sees
/// only their own.
pub fn plan_list(query: &SubmissionsQuery, user: &AuthenticatedUser) -> (r: (i64, PlainFilter))
    ensures
        r.0 == (match query.page {
            Some(p) => if p > 1 {
                p
            } else {
                1
            },
            None => 1i64,
        }),
        r.1.user_id == (if user.role != UserRole::User {
            None
        } else {
            Some(user.id)
        }),
        text::opt_text(r.1.status) == text::opt_text(query.status),
        text::opt_text(r.1.type_filter) == text::opt_text(query.sub_type),
{
    let page: i64 = match query.page {
        Some(p) => if p > 1 {
            p
        } else {
            1
        },
        None => 1,
    };
    let user_id = if user.role.can_moderate() {
        None
    } else {
        Some(user.id)
    };
    let filter = PlainFilter {
        user_id,
        status: query.status.clone(),
        type_filter: query.sub_type.clone(),
    };
    (page, filter)
}

/// The number of pages of a list.
pub fn count_pages(total: i64) -> (r: i64)
    requires
        0 <= total <= i64::MAX - PLAIN_PAGE_SIZE,
    ensures
        r == (total + 49) / 50,
{
    (total + 49) / 50
}

/// Whether a submission is shown to a user: to moderators and to its submitter.
pub fn check_access(user: &AuthenticatedUser, sub: &DiscSubmission) -> (r: Result<(), AppError>)
    ensures
        match r {
            Ok(_) => user.role != UserRole::User || sub.submitter_id == user.id,
            Err(e) => user.role == UserRole::User && sub.submitter_id != user.id && e@
                == ErrorView::Forbidden,
        },
{
    if !user.role.can_moderate() && sub.submitter_id != user.id {
        return Err(AppError::Forbidden);
    }
    Ok(())
}

/// The page of a submission.
#[derive(Debug)]
pub struct SubmissionDetailTemplate {
    pub current_user: Option<String>,
    pub is_moderator: bool,
    pub is_pending: bool,
    pub sub_id: i32,
    pub sub_type: String,
    pub submitter_name: String,
    pub status_display: String,
    pub status_class: String,
    pub created_at: String,
    pub disc_title: String,
    pub has_target_disc: bool,
    pub target_disc_id: i32,
    pub review_comment: String,
    pub data_json: String,
    pub dump_log: String,
}

fn copy_text(s: &Option<String>) -> (r: String)
    ensures
        r@ == review_template::opt_or_empty(*s),
{
    match s {
        Some(t) => t.clone(),
        None => String::new(),
    }
}

/// The page of a submission. Its title is that of its target, or the one it gives; the
/// style of its status is given.
pub fn build_submission_detail(
    user: &AuthenticatedUser,
    sub: &DiscSubmission,
    submitter_name: &str,
    status_class: &str,
    target_title: Option<String>,
) -> (r: SubmissionDetailTemplate)
    ensures
        text::opt_text(r.current_user) == Some(user.username@),
        r.is_moderator == (user.role != UserRole::User),
        r.is_pending == (sub.status == SubmissionStatus::Pending),
        r.sub_id == sub.id,
        r.sub_type@ == sub.submission_type.name(),
        r.submitter_name@ == submitter_name@,
        r.status_display@ == sub.status.name(),
        r.status_class@ == status_class@,
        r.created_at@ == clock::time_text(sub.created_at as int, MINUTE@),
        r.disc_title@ == (if sub.target_disc_id is Some {
            review_template::opt_or_empty(target_title)
        } else {
            json::text_or_empty(json::field(sub.changes@, "title"@))
        }),
        r.has_target_disc == (sub.target_disc_id is Some),
        r.target_disc_id == review_template::or_nought(sub.target_disc_id),
        r.review_comment@ == review_template::opt_or_empty(sub.review_comment),
        r.data_json@ == json_text::pretty_text(sub.changes@),
        r.dump_log@ == review_template::opt_or_empty(sub.dump_log),
{
    let disc_title = if sub.target_disc_id.is_some() {
        copy_text(&target_title)
    } else {
        String::from_str(sub.changes.field("title").str_or_empty())
    };
    let target_disc_id: i32 = match sub.target_disc_id {
        Some(id) => id,
        None => 0,
    };
    SubmissionDetailTemplate {
        current_user: Some(user.username.clone()),
        is_moderator: user.role.can_moderate(),
        is_pending: sub.status == SubmissionStatus::Pending,
        sub_id: sub.id,
        sub_type: String::from_str(sub.submission_type.as_str()),
        submitter_name: String::from_str(submitter_name),
        status_display: String::from_str(sub.status.as_str()),
        status_class: String::from_str(status_class),
        created_at: write_time(sub.created_at, MINUTE),
        disc_title,
        has_target_disc: sub.target_disc_id.is_some(),
        target_disc_id,
        review_comment: copy_text(&sub.review_comment),
        data_json: write_pretty(&sub.changes),
        dump_log: copy_text(&sub.dump_log),
    }
}

/// Where a decision leads.
pub fn submission_path(id: i32) -> (r: String)
    ensures
        r@ == "/submissions/"@ + numbers::int_text(id as int) + "/"@,
{
    cat3("/submissions/", write_i64(id as i64).as_str(), "/")
}

} // verus!
