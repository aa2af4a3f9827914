//! The queue of submissions and the pages behind it.

use vstd::prelude::*;
use vstd::utf8::encode_utf8;

use crate::clock::{self, ZONED_MINUTE, write_time};
use crate::error::{AppError, ErrorView, bad_request};
use crate::json::{self, Json, JsonView};
use crate::json_text::{self, write_pretty};
use crate::models::{
    self, AuthenticatedUser, DiscSubmission, SubmissionDisplayKind, SubmissionStatus,
    SubmissionType, System,
};
use crate::numbers::{self, write_i64};
use crate::routes::disc_edit::{
    self, Choice, ChoiceView, DiscEditTemplate, EditRefData, TemplateView, max_layers_for_media,
};
use crate::routes::highlights::{self, compute_field_highlights};
use crate::routes::review_diff::{self, apply_highlights, apply_review_diff_context};
use crate::routes::review_template::{self, ReviewPage, build_review_template};
use crate::routes::review_values::{self, comments_text_contains_review_delimiter};
use crate::services::approval::{self, ApprovalConflict, ConflictView, normalize_comment};
use crate::services::dump_text;
use crate::services::queue_sql::{ColumnView, SortColumn, SubmissionFilter};
use crate::services::resolution::{self, resolve_submission_snapshot_for_submission};
use crate::text::{self, cat2, cat3, str_eq};

verus! {

/// The number of submissions on a page of the queue.
pub const PAGE_SIZE: i64 = 50;

/// What a request asks of the queue.
#[derive(Debug)]
pub struct QueueQuery {
    pub status: Option<String>,
    pub sub_type: Option<String>,
    pub system: Option<String>,
    pub submitter: Option<String>,
    pub disc_id: Option<i32>,
    pub sort: Option<SortColumn>,
    pub order: Option<String>,
    pub page: Option<i64>,
}

/// A submission in the queue.
#[derive(Debug)]
pub struct SubmissionListRow {
    pub id: i32,
    pub submission_type: SubmissionType,
    pub title: String,
    pub system_code: String,
    pub system_display: String,
    pub submitter: String,
    pub submitter_id: i32,
    pub reviewer: Option<String>,
    pub reviewer_id: Option<i32>,
    pub status: SubmissionStatus,
    /// Whether it has a target, also where the list does not say which.
    pub has_target_disc: bool,
    /// The target, unless it is that of a draft.
    pub target_disc_id: Option<i32>,
    /// Seconds since the Unix epoch.
    pub created_at: i64,
}

impl SubmissionListRow {
    /// The submission has a target.
    pub open spec fn is_targeted(self) -> bool {
        self.has_target_disc || self.target_disc_id is Some
    }

    fn has_target(&self) -> (r: bool)
        ensures
            r == self.is_targeted(),
    {
        self.has_target_disc || self.target_disc_id.is_some()
    }

    /// What the submission is shown as.
    pub fn display_kind(&self) -> (r: SubmissionDisplayKind)
        ensures
            r == models::display_kind_of(self.submission_type, self.status, self.is_targeted()),
    {
        SubmissionDisplayKind::of(self.submission_type, self.status, self.has_target())
    }
}

// ── Rows ───────────────────────────────────────────────────────────────────

/// A status that everyone may see.
pub open spec fn is_public(status: SubmissionStatus) -> bool {
    status == SubmissionStatus::Approved || status == SubmissionStatus::Legacy
}

fn status_is_public(status: SubmissionStatus) -> (r: bool)
    ensures
        r == is_public(status),
{
    match status {
        SubmissionStatus::Approved | SubmissionStatus::Legacy => true,
        _ => false,
    }
}

/// Whether a row leads to its submission: for whoever is logged in, and for everyone
/// where the status is public.
pub fn can_open_entry(current_user_id: Option<i32>, entry: &SubmissionListRow) -> (r: bool)
    ensures
        r == (current_user_id is Some || is_public(entry.status)),
{
    current_user_id.is_some() || status_is_public(entry.status)
}

/// The kind of a row. A draft keeps the kind that its target gives it, though the target
/// is not shown.
pub open spec fn row_label(entry: SubmissionListRow) -> Seq<char> {
    match entry.submission_type {
        SubmissionType::Disc => if entry.is_targeted() {
            "Verification"@
        } else {
            "New Disc"@
        },
        SubmissionType::Edit => "Edit"@,
    }
}

/// The kind of a row.
pub fn type_icon_label(entry: &SubmissionListRow) -> (r: &'static str)
    ensures
        r@ == row_label(*entry),
{
    match entry.submission_type {
        SubmissionType::Disc => if entry.has_target() {
            "Verification"
        } else {
            "New Disc"
        },
        SubmissionType::Edit => "Edit",
    }
}

/// The style of the icon of a row.
pub fn type_icon_class(entry: &SubmissionListRow) -> (r: &'static str)
    ensures
        r@ == (match (entry.submission_type, entry.status == SubmissionStatus::Pending) {
            (SubmissionType::Disc, true) => if entry.is_targeted() {
                "submission-type-icon submission-type-icon-disc submission-type-icon-verification"@
            } else {
                "submission-type-icon submission-type-icon-disc submission-type-icon-new-disc"@
            },
            (SubmissionType::Disc, false) =>
                "submission-type-icon submission-type-icon-disc submission-type-icon-processed"@,
            (SubmissionType::Edit, true) =>
                "submission-type-icon submission-type-icon-edit submission-type-icon-edit-pending"@,
            (SubmissionType::Edit, false) =>
                "submission-type-icon submission-type-icon-edit submission-type-icon-processed"@,
        }),
{
    let pending = entry.status == SubmissionStatus::Pending;
    match entry.submission_type {
        SubmissionType::Disc => if !pending {
            "submission-type-icon submission-type-icon-disc submission-type-icon-processed"
        } else if entry.has_target() {
            "submission-type-icon submission-type-icon-disc submission-type-icon-verification"
        } else {
            "submission-type-icon submission-type-icon-disc submission-type-icon-new-disc"
        },
        SubmissionType::Edit => if pending {
            "submission-type-icon submission-type-icon-edit submission-type-icon-edit-pending"
        } else {
            "submission-type-icon submission-type-icon-edit submission-type-icon-processed"
        },
    }
}

// ── Filters ────────────────────────────────────────────────────────────────

/// A byte that stands for itself in an address.
pub open spec fn is_unreserved(b: u8) -> bool {
    let c = b as char;
    text::is_alnum(c) || c == '-' || c == '.' || c == '_' || c == '~'
}

/// Bytes in an address: those that cannot stand for themselves as a percent sign and two
/// hexadecimal digits.
pub open spec fn percent_encoded(bytes: Seq<u8>) -> Seq<char>
    decreases bytes.len(),
{
    if bytes.len() == 0 {
        Seq::empty()
    } else {
        percent_encoded(bytes.drop_last()) + (if is_unreserved(bytes.last()) {
            seq![bytes.last() as char]
        } else {
            seq!['%'] + dump_text::byte_text(bytes.last(), true)
        })
    }
}

/// `urlencoding::encode`: every byte of the text except ASCII letters and digits and
/// `-`, `.`, `_`, `~` becomes a percent sign and two capital hexadecimal digits.
#[verifier::external_body]
fn url_encode(s: &str) -> (r: String)
    ensures
        r@ == percent_encoded(encode_utf8(s@)),
{
    urlencoding::encode(s).into_owned()
}

/// A text of a query, or the empty one.
pub open spec fn given_or_empty(s: Option<String>) -> Seq<char> {
    match s {
        Some(t) => t@,
        None => Seq::empty(),
    }
}

/// A text of a query, or another one.
pub open spec fn given_or(s: Option<String>, other: Seq<char>) -> Seq<char> {
    match s {
        Some(t) => t@,
        None => other,
    }
}

fn text_or_other(s: &Option<String>, other: &str) -> (r: String)
    ensures
        r@ == given_or(*s, other@),
{
    match s {
        Some(t) => t.clone(),
        None => String::from_str(other),
    }
}

/// The status that the queue is filtered by; one that it does not know is "Pending".
pub open spec fn queue_status(s: Option<String>) -> Seq<char> {
    let t = given_or(s, "Pending"@);
    if t == "All Statuses"@ || t == "Approved"@ || t == "Rejected"@ || t == "Legacy"@ {
        t
    } else {
        "Pending"@
    }
}

fn read_queue_status(s: &Option<String>) -> (r: String)
    ensures
        r@ == queue_status(*s),
{
    let t = text_or_other(s, "Pending");
    if str_eq(t.as_str(), "All Statuses") || str_eq(t.as_str(), "Approved") || str_eq(
        t.as_str(),
        "Rejected",
    ) || str_eq(t.as_str(), "Legacy") {
        t
    } else {
        String::from_str("Pending")
    }
}

/// How the queue is filtered and sorted.
#[derive(Debug)]
pub struct QueuePlan {
    pub disc_id: Option<i32>,
    pub page: i64,
    pub filter_status: String,
    pub filter_type: String,
    pub filter_system: String,
    pub filter_submitter: String,
    pub filter_submitter_url: String,
    pub sort_column: SortColumn,
    pub sort_order: String,
}

impl QueuePlan {
    /// What the plan says for a query. The history of a disc is not filtered.
    pub open spec fn is_plan_of(self, query: QueueQuery) -> bool {
        let history = query.disc_id is Some;
        &&& self.disc_id == query.disc_id
        &&& self.page == (match query.page {
            Some(p) => if p > 1 {
                p
            } else {
                1
            },
            None => 1i64,
        })
        &&& self.filter_status@ == (if history {
            "All Visible"@
        } else {
            queue_status(query.status)
        })
        &&& self.filter_type@ == (if history {
            Seq::empty()
        } else {
            given_or_empty(query.sub_type)
        })
        &&& self.filter_system@ == (if history {
            Seq::empty()
        } else {
            given_or_empty(query.system)
        })
        &&& self.filter_submitter@ == (if history {
            Seq::empty()
        } else {
            given_or_empty(query.submitter)
        })
        &&& self.filter_submitter_url@ == percent_encoded(encode_utf8(self.filter_submitter@))
        &&& self.sort_column@ == (match query.sort {
            Some(c) => c@,
            None => ColumnView::Date,
        })
        &&& self.sort_order@ == given_or(query.order, "desc"@)
    }
}

fn unless_history(history: bool, s: &Option<String>) -> (r: String)
    ensures
        r@ == (if history {
            Seq::empty()
        } else {
            given_or_empty(*s)
        }),
{
    if history {
        String::new()
    } else {
        match s {
            Some(t) => t.clone(),
            None => String::new(),
        }
    }
}

/// How the queue is filtered and sorted. Only the history of a disc is open to whoever
/// is not logged in.
pub fn plan_queue(query: &QueueQuery, is_logged_in: bool) -> (r: Result<QueuePlan, AppError>)
    ensures
        match r {
            Ok(p) => (query.disc_id is Some || is_logged_in) && p.is_plan_of(*query),
            Err(e) => query.disc_id is None && !is_logged_in && e@ == ErrorView::Unauthorized,
        },
{
    let history = query.disc_id.is_some();
    if !history && !is_logged_in {
        return Err(AppError::Unauthorized);
    }
    let page: i64 = match query.page {
        Some(p) => if p > 1 {
            p
        } else {
            1
        },
        None => 1,
    };
    let filter_status = if history {
        String::from_str("All Visible")
    } else {
        read_queue_status(&query.status)
    };
    let sort_column = match &query.sort {
        Some(c) => c.copy(),
        None => SortColumn::Date,
    };
    let filter_submitter = unless_history(history, &query.submitter);
    let filter_submitter_url = url_encode(filter_submitter.as_str());
    Ok(
        QueuePlan {
            disc_id: query.disc_id,
            page,
            filter_status,
            filter_type: unless_history(history, &query.sub_type),
            filter_system: unless_history(history, &query.system),
            filter_submitter,
            filter_submitter_url,
            sort_column,
            sort_order: text_or_other(&query.order, "desc"),
        },
    )
}

/// A text to filter by, unless it is empty.
pub open spec fn nonempty(s: Seq<char>) -> Option<Seq<char>> {
    if s.len() == 0 {
        None
    } else {
        Some(s)
    }
}

fn keep_nonempty(s: &String) -> (r: Option<String>)
    ensures
        text::opt_text(r) == nonempty(s@),
{
    if s.as_str().is_empty() {
        None
    } else {
        Some(s.clone())
    }
}

/// The restrictions that a plan puts on the list of submissions.
pub fn queue_filter(
    plan: &QueuePlan,
    can_view_disabled_discs: bool,
    viewer_id: i32,
    can_view_all_drafts: bool,
) -> (r: SubmissionFilter)
    ensures
        r.user_id is None,
        r.disc_id == plan.disc_id,
        r.public_statuses_only == (plan.disc_id is Some),
        r.hide_disabled_targets == !can_view_disabled_discs,
        r.viewer_id == viewer_id,
        r.can_view_all_drafts == can_view_all_drafts,
        text::opt_text(r.status) == (if plan.disc_id is Some || plan.filter_status@
            == "All Statuses"@ {
            None
        } else {
            Some(plan.filter_status@)
        }),
        text::opt_text(r.type_filter) == nonempty(plan.filter_type@),
        text::opt_text(r.system) == nonempty(plan.filter_system@),
        text::opt_text(r.submitter) == nonempty(plan.filter_submitter@),
{
    let history = plan.disc_id.is_some();
    SubmissionFilter {
        user_id: None,
        disc_id: plan.disc_id,
        public_statuses_only: history,
        hide_disabled_targets: !can_view_disabled_discs,
        viewer_id,
        can_view_all_drafts,
        status: if history || str_eq(plan.filter_status.as_str(), "All Statuses") {
            None
        } else {
            Some(plan.filter_status.clone())
        },
        type_filter: keep_nonempty(&plan.filter_type),
        system: keep_nonempty(&plan.filter_system),
        submitter: keep_nonempty(&plan.filter_submitter),
    }
}

// ── The page of the queue ──────────────────────────────────────────────────

/// A platform in the filter of the queue.
#[derive(Debug)]
pub struct SystemRow {
    pub code: String,
    pub manufacturer: String,
    pub name: String,
}

/// A submitter in the filter of the queue.
#[derive(Debug)]
pub struct SubmitterOption {
    pub username: String,
    pub selected: bool,
}

/// The full name of a platform.
pub open spec fn joined_name(manufacturer: Seq<char>, name: Seq<char>) -> Seq<char> {
    if manufacturer.len() == 0 {
        name
    } else {
        manufacturer + " "@ + name
    }
}

/// The full name of a platform.
pub fn build_system_name(manufacturer: &str, name: &str) -> (r: String)
    ensures
        r@ == joined_name(manufacturer@, name@),
{
    if manufacturer.is_empty() {
        String::from_str(name)
    } else {
        cat3(manufacturer, " ", name)
    }
}

/// The platforms, with the one that is filtered by marked.
pub open spec fn system_row_choices(v: Seq<SystemRow>, code: Seq<char>) -> Seq<ChoiceView> {
    v.map_values(
        |s: SystemRow|
            ChoiceView {
                code: s.code@,
                name: joined_name(s.manufacturer@, s.name@),
                selected: s.code@ == code,
            },
    )
}

/// The platforms, with the one that is filtered by marked.
pub fn queue_system_options(rows: &Vec<SystemRow>, selected: &str) -> (r: Vec<Choice>)
    ensures
        disc_edit::choice_views(r@) == system_row_choices(rows@, selected@),
{
    let ghost all = system_row_choices(rows@, selected@);
    let mut out: Vec<Choice> = Vec::new();
    assert(disc_edit::choice_views(out@) =~= all.take(0));
    for i in 0..rows.len()
        invariant
            all == system_row_choices(rows@, selected@),
            disc_edit::choice_views(out@) == all.take(i as int),
    {
        let s = &rows[i];
        let c = Choice {
            code: s.code.clone(),
            name: build_system_name(s.manufacturer.as_str(), s.name.as_str()),
            selected: str_eq(s.code.as_str(), selected),
        };
        let ghost before = out@;
        out.push(c);
        assert(disc_edit::choice_views(out@) =~= disc_edit::choice_views(before).push(all[i as int]));
        assert(all.take(i + 1) =~= all.take(i as int).push(all[i as int]));
    }
    assert(all.take(all.len() as int) =~= all);
    out
}

/// The submitters in the filter.
pub open spec fn submitter_views(v: Seq<SubmitterOption>) -> Seq<(Seq<char>, bool)> {
    v.map_values(|s: SubmitterOption| (s.username@, s.selected))
}

/// The submitters, with the one that is filtered by marked; none in the history of a
/// disc.
pub fn queue_submitter_options(names: &Vec<String>, plan: &QueuePlan) -> (r: Vec<SubmitterOption>)
    ensures
        submitter_views(r@) == (if plan.disc_id is Some {
            Seq::empty()
        } else {
            text::texts(names@).map_values(
                |n: Seq<char>| (n, n == plan.filter_submitter@),
            )
        }),
{
    let mut out: Vec<SubmitterOption> = Vec::new();
    assert(submitter_views(out@) =~= Seq::<(Seq<char>, bool)>::empty());
    if plan.disc_id.is_some() {
        return out;
    }
    let ghost all = text::texts(names@).map_values(|n: Seq<char>| (n, n == plan.filter_submitter@));
    assert(submitter_views(out@) =~= all.take(0));
    for i in 0..names.len()
        invariant
            plan.disc_id is None,
            all == text::texts(names@).map_values(|n: Seq<char>| (n, n == plan.filter_submitter@)),
            submitter_views(out@) == all.take(i as int),
    {
        let o = SubmitterOption {
            username: names[i].clone(),
            selected: str_eq(names[i].as_str(), plan.filter_submitter.as_str()),
        };
        let ghost before = out@;
        out.push(o);
        assert(submitter_views(out@) =~= submitter_views(before).push(all[i as int]));
        assert(all.take(i + 1) =~= all.take(i as int).push(all[i as int]));
    }
    assert(all.take(all.len() as int) =~= all);
    out
}

/// The order that a click on a column's head asks for.
pub open spec fn order_after_click(column: ColumnView, order: Seq<char>, clicked: ColumnView) -> Seq<
    char,
> {
    if column == clicked && order != "desc"@ {
        "desc"@
    } else {
        "asc"@
    }
}

/// The order that a click on a column's head asks for: the other one if the list is
/// sorted upwards by that column, else upwards.
pub fn next_order(sort_column: &SortColumn, sort_order: &str, col: &SortColumn) -> (r: String)
    ensures
        r@ == order_after_click(sort_column@, sort_order@, col@),
{
    if sort_column.is(col) && !str_eq(sort_order, "desc") {
        String::from_str("desc")
    } else {
        String::from_str("asc")
    }
}

/// The page of the queue.
#[derive(Debug)]
pub struct QueueTemplate {
    pub current_user: Option<AuthenticatedUser>,
    pub current_user_id: Option<i32>,
    pub page_title: String,
    pub is_public_history: bool,
    pub can_view_all_statuses: bool,
    pub entries: Vec<SubmissionListRow>,
    pub systems: Vec<Choice>,
    pub submitters: Vec<SubmitterOption>,
    pub filter_disc_id: String,
    pub filter_status: String,
    pub filter_type: String,
    pub filter_system: String,
    pub filter_submitter: String,
    pub filter_submitter_url: String,
    pub total_count: i64,
    pub page: i64,
    pub total_pages: i64,
    pub prev_page: i64,
    pub next_page: i64,
    pub sort_column: SortColumn,
    pub sort_order: String,
    pub next_date_order: String,
    pub next_title_order: String,
    pub next_system_order: String,
    pub next_submitter_order: String,
    pub next_reviewer_order: String,
    pub next_type_order: String,
    pub next_disc_id_order: String,
    pub next_status_order: String,
}

/// The title of the queue's page.
pub open spec fn queue_title(disc_id: Option<i32>) -> Seq<char> {
    match disc_id {
        Some(id) => "History: Disc #"@ + numbers::int_text(id as int),
        None => "Queue"@,
    }
}

/// The number of a disc as text, if there is one.
pub open spec fn disc_id_text(disc_id: Option<i32>) -> Seq<char> {
    match disc_id {
        Some(id) => numbers::int_text(id as int),
        None => Seq::empty(),
    }
}

/// The page of the queue. There is a page after every page that can be counted.
pub fn build_queue_page(
    plan: &QueuePlan,
    current_user: Option<AuthenticatedUser>,
    entries: Vec<SubmissionListRow>,
    total_count: i64,
    system_rows: &Vec<SystemRow>,
    submitter_names: &Vec<String>,
) -> (r: QueueTemplate)
    requires
        1 <= plan.page < i64::MAX,
        0 <= total_count <= i64::MAX - PAGE_SIZE,
    ensures
        r.current_user == current_user,
        r.current_user_id == (match current_user {
            Some(u) => Some(u.id),
            None => None,
        }),
        r.page_title@ == queue_title(plan.disc_id),
        r.is_public_history == (plan.disc_id is Some),
        r.can_view_all_statuses == (current_user is Some && plan.disc_id is None),
        r.entries == entries,
        disc_edit::choice_views(r.systems@) == system_row_choices(system_rows@, plan.filter_system@),
        submitter_views(r.submitters@) == (if plan.disc_id is Some {
            Seq::empty()
        } else {
            text::texts(submitter_names@).map_values(
                |n: Seq<char>| (n, n == plan.filter_submitter@),
            )
        }),
        r.filter_disc_id@ == disc_id_text(plan.disc_id),
        r.filter_status@ == plan.filter_status@,
        r.filter_type@ == plan.filter_type@,
        r.filter_system@ == plan.filter_system@,
        r.filter_submitter@ == plan.filter_submitter@,
        r.filter_submitter_url@ == plan.filter_submitter_url@,
        r.total_count == total_count,
        r.page == plan.page,
        r.total_pages == (total_count + PAGE_SIZE - 1) / PAGE_SIZE as int,
        r.prev_page == plan.page - 1,
        r.next_page == plan.page + 1,
        r.sort_column@ == plan.sort_column@,
        r.sort_order@ == plan.sort_order@,
        r.next_date_order@ == order_after_click(plan.sort_column@, plan.sort_order@, ColumnView::Date),
        r.next_title_order@ == order_after_click(plan.sort_column@, plan.sort_order@, ColumnView::Title),
        r.next_system_order@ == order_after_click(plan.sort_column@, plan.sort_order@, ColumnView::System),
        r.next_submitter_order@ == order_after_click(
            plan.sort_column@,
            plan.sort_order@,
            ColumnView::Submitter,
        ),
        r.next_reviewer_order@ == order_after_click(
            plan.sort_column@,
            plan.sort_order@,
            ColumnView::Reviewer,
        ),
        r.next_type_order@ == order_after_click(plan.sort_column@, plan.sort_order@, ColumnView::Type),
        r.next_disc_id_order@ == order_after_click(plan.sort_column@, plan.sort_order@, ColumnView::DiscId),
        r.next_status_order@ == order_after_click(plan.sort_column@, plan.sort_order@, ColumnView::Status),
{
    let col = &plan.sort_column;
    let order = plan.sort_order.as_str();
    let current_user_id: Option<i32> = match &current_user {
        Some(u) => Some(u.id),
        None => None,
    };
    let page_title = match plan.disc_id {
        Some(id) => cat2("History: Disc #", write_i64(id as i64).as_str()),
        None => String::from_str("Queue"),
    };
    let filter_disc_id = match plan.disc_id {
        Some(id) => write_i64(id as i64),
        None => String::new(),
    };
    let rounded: i64 = total_count + PAGE_SIZE - 1;
    QueueTemplate {
        current_user,
        current_user_id,
        page_title,
        is_public_history: plan.disc_id.is_some(),
        can_view_all_statuses: current_user_id.is_some() && plan.disc_id.is_none(),
        entries,
        systems: queue_system_options(system_rows, plan.filter_system.as_str()),
        submitters: queue_submitter_options(submitter_names, plan),
        filter_disc_id,
        filter_status: plan.filter_status.clone(),
        filter_type: plan.filter_type.clone(),
        filter_system: plan.filter_system.clone(),
        filter_submitter: plan.filter_submitter.clone(),
        filter_submitter_url: plan.filter_submitter_url.clone(),
        total_count,
        page: plan.page,
        total_pages: rounded / PAGE_SIZE,
        prev_page: plan.page - 1,
        next_page: plan.page + 1,
        sort_column: plan.sort_column.copy(),
        sort_order: plan.sort_order.clone(),
        next_date_order: next_order(col, order, &SortColumn::Date),
        next_title_order: next_order(col, order, &SortColumn::Title),
        next_system_order: next_order(col, order, &SortColumn::System),
        next_submitter_order: next_order(col, order, &SortColumn::Submitter),
        next_reviewer_order: next_order(col, order, &SortColumn::Reviewer),
        next_type_order: next_order(col, order, &SortColumn::Type),
        next_disc_id_order: next_order(col, order, &SortColumn::DiscId),
        next_status_order: next_order(col, order, &SortColumn::Status),
    }
}

// ── A submission ───────────────────────────────────────────────────────────

/// How a submission is shown.
#[derive(Clone, Copy, Debug, PartialEq, Eq, Structural)]
pub enum DetailMode {
    ReadOnly,
    Review,
}

/// How a submission is shown: for review to moderators while it is pending, else to be
/// read; what is not public is shown only to whoever is logged in.
pub fn detail_mode(is_logged_in: bool, is_moderator: bool, status: SubmissionStatus) -> (r: Result<
    DetailMode,
    AppError,
>)
    ensures
        match r {
            Err(e) => !is_logged_in && !is_public(status) && e@ == ErrorView::Forbidden,
            Ok(m) => (is_logged_in || is_public(status)) && m == (if is_moderator && status
                == SubmissionStatus::Pending {
                DetailMode::Review
            } else {
                DetailMode::ReadOnly
            }),
        },
{
    if !(is_logged_in || status_is_public(status)) {
        return Err(AppError::Forbidden);
    }
    if is_moderator && status == SubmissionStatus::Pending {
        Ok(DetailMode::Review)
    } else {
        Ok(DetailMode::ReadOnly)
    }
}

/// The name of a submitter, or their number where the name is not known.
pub fn submitter_display_name(name: Option<String>, submitter_id: i32) -> (r: String)
    ensures
        r@ == (match name {
            Some(n) => n@,
            None => "User #"@ + numbers::int_text(submitter_id as int),
        }),
{
    match name {
        Some(n) => n,
        None => cat2("User #", write_i64(submitter_id as i64).as_str()),
    }
}

/// A submission that is only shown.
#[derive(Debug)]
pub struct QueueDetailTemplate {
    pub current_user: Option<AuthenticatedUser>,
    pub submission_id: i32,
    pub submission_type_display: String,
    pub submitter_id: i32,
    pub submitter_name: String,
    pub submission_comment: String,
    pub dump_log_display: String,
    pub extra_upload_url_display: String,
    pub submission_status: String,
    pub reviewer_id: i32,
    pub reviewer_name: String,
    pub review_comment_display: String,
    pub created_at_display: String,
    pub reviewed_at_display: String,
    pub target_disc_id: i32,
    pub changes_json: String,
}

fn text_or_none(s: &Option<String>) -> (r: String)
    ensures
        r@ == review_template::opt_or_empty(*s),
{
    match s {
        Some(t) => t.clone(),
        None => String::new(),
    }
}

fn number_or_nought(n: Option<i32>) -> (r: i32)
    ensures
        r == review_template::or_nought(n),
{
    match n {
        Some(x) => x,
        None => 0,
    }
}

/// The page of a submission that is only shown.
pub fn build_readonly_detail(
    current_user: Option<AuthenticatedUser>,
    sub: &DiscSubmission,
    submitter_name: &str,
    reviewer_name: &str,
) -> (r: QueueDetailTemplate)
    ensures
        r.current_user == current_user,
        r.submission_id == sub.id,
        r.submission_type_display@ == sub.submission_type.name(),
        r.submitter_id == sub.submitter_id,
        r.submitter_name@ == submitter_name@,
        r.submission_comment@ == review_template::opt_or_empty(sub.submission_comment),
        r.dump_log_display@ == review_template::opt_or_empty(sub.dump_log),
        r.extra_upload_url_display@ == review_template::opt_or_empty(sub.extra_upload_url),
        r.submission_status@ == sub.status.name(),
        r.reviewer_id == review_template::or_nought(sub.reviewer_id),
        r.reviewer_name@ == reviewer_name@,
        r.review_comment_display@ == review_template::opt_or_empty(sub.review_comment),
        r.created_at_display@ == clock::time_text(sub.created_at as int, ZONED_MINUTE@),
        r.reviewed_at_display@ == review_template::opt_time_text(sub.reviewed_at),
        r.target_disc_id == review_template::or_nought(sub.target_disc_id),
        r.changes_json@ == json_text::pretty_text(sub.changes@),
{
    let reviewed_at_display = match sub.reviewed_at {
        Some(t) => write_time(t, ZONED_MINUTE),
        None => String::new(),
    };
    QueueDetailTemplate {
        current_user,
        submission_id: sub.id,
        submission_type_display: String::from_str(sub.submission_type.as_str()),
        submitter_id: sub.submitter_id,
        submitter_name: String::from_str(submitter_name),
        submission_comment: text_or_none(&sub.submission_comment),
        dump_log_display: text_or_none(&sub.dump_log),
        extra_upload_url_display: text_or_none(&sub.extra_upload_url),
        submission_status: String::from_str(sub.status.as_str()),
        reviewer_id: number_or_nought(sub.reviewer_id),
        reviewer_name: String::from_str(reviewer_name),
        review_comment_display: text_or_none(&sub.review_comment),
        created_at_display: write_time(sub.created_at, ZONED_MINUTE),
        reviewed_at_display,
        target_disc_id: number_or_nought(sub.target_disc_id),
        changes_json: write_pretty(&sub.changes),
    }
}

/// The code of the system and of the kind of media that a snapshot gives; without one
/// the medium is a CD.
pub fn review_codes(snapshot: &Json) -> (r: (String, String))
    ensures
        r.0@ == json::text_or_empty(json::field(snapshot@, "system_code"@)),
        r.1@ == review_template::text_else(json::field(snapshot@, "media_type"@), "cd"@),
{
    let media = match snapshot.field("media_type").as_str() {
        Some(m) => String::from_str(m),
        None => String::from_str("cd"),
    };
    (String::from_str(snapshot.field("system_code").str_or_empty()), media)
}

/// The page of a review that was begun: for a submission with a target, with the notes
/// on what it changes, the stored values that a review keeps, and the marks.
pub open spec fn first_review_view(t: TemplateView, snapshot: JsonView, db: Option<JsonView>, ref_data: EditRefData) -> TemplateView {
    match db {
        Some(d) => review_diff::with_marks(
            review_diff::with_diff(t, snapshot, d, ref_data, true),
            highlights::highlights_of(d, snapshot),
        ),
        None => t,
    }
}

/// The page of a review.
pub fn build_first_review(
    current_user: AuthenticatedUser,
    sub: &DiscSubmission,
    page: &ReviewPage,
    db_snapshot: Option<&Json>,
    ref_data: &EditRefData,
    system: Option<&System>,
) -> (r: Result<DiscEditTemplate, AppError>)
    requires
        db_snapshot matches Some(d) ==> resolution::snapshot_ok(d@, sub.changes@),
    ensures
        ({
            let start = match db_snapshot {
                Some(d) => d@,
                None => JsonView::Obj(Seq::empty()),
            };
            let db = match db_snapshot {
                Some(d) => Some(d@),
                None => None,
            };
            match resolution::resolved(start, sub.changes@) {
                Err(x) => r matches Err(e) && e@ == x,
                Ok(snapshot) => {
                    let code = json::text_or_empty(json::field(snapshot, "system_code"@));
                    let media = review_template::text_else(json::field(snapshot, "media_type"@), "cd"@);
                    r matches Ok(t) && t@ == first_review_view(
                        review_template::review_view(
                            current_user,
                            *sub,
                            *page,
                            snapshot,
                            *ref_data,
                            code,
                            media,
                            disc_edit::layers_of_media(ref_data.all_media_types@, media),
                            system,
                        ),
                        snapshot,
                        db,
                        *ref_data,
                    )
                },
            }
        }),
{
    let empty = Json::object();
    proof {
        assert(json::lookup(Seq::empty(), "ring_codes"@) is None);
        resolution::law_settable_snapshots_are_changeable(empty@, sub.changes@);
    }
    let start = match db_snapshot {
        Some(d) => d,
        None => &empty,
    };
    let snapshot = match resolve_submission_snapshot_for_submission(start, sub) {
        Err(e) => {
            return Err(e);
        },
        Ok(s) => s,
    };
    let (system_code, media_type_code) = review_codes(&snapshot);
    let max_layers: u32 = max_layers_for_media(&ref_data.all_media_types, media_type_code.as_str());
    let mut template = build_review_template(
        current_user,
        sub,
        page,
        &snapshot,
        ref_data,
        system_code.as_str(),
        media_type_code.as_str(),
        max_layers,
        system,
    );
    if let Some(db) = db_snapshot {
        apply_review_diff_context(&mut template, &snapshot, db, ref_data, true);
        let highlights = compute_field_highlights(&snapshot, db);
        apply_highlights(&mut template, highlights);
    }
    Ok(template)
}

// ── Deciding on a submission ───────────────────────────────────────────────

/// The form of a disc, as far as a decision depends on it.
#[derive(Debug)]
pub struct DiscEditForm {
    pub system_code: String,
    pub media_type: String,
    pub status: Option<String>,
    pub comments: Option<String>,
}

/// A decision on a submission.
#[derive(Debug)]
pub struct ReviewForm {
    pub action: String,
    pub review_comment: Option<String>,
    pub disc: DiscEditForm,
}

/// The status that a form gives is not that of a disabled disc.
pub fn form_status_is_active(form: &DiscEditForm) -> (r: bool)
    ensures
        r == (text::opt_text(form.status) != Some("Disabled"@)),
{
    match &form.status {
        Some(s) => !str_eq(s.as_str(), "Disabled"),
        None => true,
    }
}

/// What a decision does first.
#[derive(Debug)]
pub enum ReviewStep {
    /// Go back to the submission: it was decided on meanwhile.
    ShowSubmission,
    /// Reject it.
    Reject(Option<String>),
    /// Check the form and approve it.
    Approve(Option<String>),
}

/// What a decision does first.
pub fn review_step(status: SubmissionStatus, form: &ReviewForm) -> (r: Result<ReviewStep, AppError>)
    ensures
        ({
            let comment = approval::comment_field(text::opt_text(form.review_comment));
            if status != SubmissionStatus::Pending {
                r matches Ok(ReviewStep::ShowSubmission)
            } else if form.action@ == "reject"@ {
                r matches Ok(ReviewStep::Reject(c)) && text::opt_text(c) == comment
            } else if form.action@ == "approve"@ {
                r matches Ok(ReviewStep::Approve(c)) && text::opt_text(c) == comment
            } else {
                r matches Err(e) && e@ == ErrorView::BadRequest("unknown review action"@)
            }
        }),
{
    if status != SubmissionStatus::Pending {
        return Ok(ReviewStep::ShowSubmission);
    }
    let given: Option<&str> = match &form.review_comment {
        Some(c) => Some(c.as_str()),
        None => None,
    };
    let comment = normalize_comment(given);
    if str_eq(form.action.as_str(), "reject") {
        return Ok(ReviewStep::Reject(comment));
    }
    if !str_eq(form.action.as_str(), "approve") {
        return Err(bad_request("unknown review action"));
    }
    Ok(ReviewStep::Approve(comment))
}

/// The errors of a form, with that of comments that nobody has merged.
pub open spec fn approval_errors(errors: Seq<Seq<char>>, comments: Option<Seq<char>>) -> Seq<
    Seq<char>,
> {
    if review_values::unmerged(comments) {
        errors.push("Comments: remove the review delimiter before approval"@)
    } else {
        errors
    }
}

/// The errors of a form that is to be approved.
pub fn check_comments(errors: Vec<String>, form: &DiscEditForm) -> (r: Vec<String>)
    ensures
        text::texts(r@) == approval_errors(text::texts(errors@), text::opt_text(form.comments)),
{
    let comments: Option<&str> = match &form.comments {
        Some(c) => Some(c.as_str()),
        None => None,
    };
    let mut out = errors;
    let ghost before = out@;
    if comments_text_contains_review_delimiter(comments) {
        out.push(String::from_str("Comments: remove the review delimiter before approval"));
        assert(text::texts(out@) =~= text::texts(before).push(
            "Comments: remove the review delimiter before approval"@,
        ));
    }
    out
}

/// Whether the disc would be active once approved: a new disc and a verified one always,
/// an edited one if its form says so.
pub fn proposed_is_active(sub: &DiscSubmission, form: &DiscEditForm) -> (r: bool)
    ensures
        r == (sub.target_disc_id is None || sub.submission_type == SubmissionType::Disc || text::opt_text(
            form.status,
        ) != Some("Disabled"@)),
{
    sub.target_disc_id.is_none() || sub.submission_type == SubmissionType::Disc
        || form_status_is_active(form)
}

/// Which changes an approval takes from the form.
#[derive(Clone, Copy, Debug, PartialEq, Eq, Structural)]
pub enum ChangeSource {
    /// What differs from the disc.
    EditOf(i32),
    /// A new disc.
    NewDisc,
}

/// Which changes an approval takes from the form; an edit must have a target.
pub fn change_source(sub: &DiscSubmission) -> (r: Result<ChangeSource, AppError>)
    ensures
        match sub.target_disc_id {
            Some(id) => r == Ok::<ChangeSource, AppError>(ChangeSource::EditOf(id)),
            None => if sub.submission_type == SubmissionType::Disc {
                r == Ok::<ChangeSource, AppError>(ChangeSource::NewDisc)
            } else {
                r matches Err(e) && e@ == ErrorView::BadRequest(
                    "edit submission is missing a target disc"@,
                )
            },
        },
{
    match sub.target_disc_id {
        Some(id) => Ok(ChangeSource::EditOf(id)),
        None => if sub.submission_type == SubmissionType::Disc {
            Ok(ChangeSource::NewDisc)
        } else {
            Err(bad_request("edit submission is missing a target disc"))
        },
    }
}

/// Where a decision leads: to the queue if it was carried out, else to the submission.
pub fn after_decision(id: i32, done: bool) -> (r: String)
    ensures
        r@ == (if done {
            "/queue/"@
        } else {
            "/queue/"@ + numbers::int_text(id as int) + "/"@
        }),
{
    if done {
        String::from_str("/queue/")
    } else {
        cat3("/queue/", write_i64(id as i64).as_str(), "/")
    }
}

/// The page of a review whose form has errors: what the moderator entered, with the
/// errors; for a submission with a target, with the notes and the marks.
pub open spec fn repeated_review_view(
    t: TemplateView,
    errors: Seq<Seq<char>>,
    linked: Seq<ConflictView>,
    comment: Seq<char>,
    diff: Option<(JsonView, JsonView)>,
    ref_data: EditRefData,
) -> TemplateView {
    let t = TemplateView {
        validation_errors: errors,
        linked_validation_errors: linked,
        review_comment_input: comment,
        ..t
    };
    match diff {
        Some(d) => review_diff::with_marks(
            review_diff::with_diff(t, d.1, d.0, ref_data, false),
            highlights::highlights_of(d.0, d.1),
        ),
        None => t,
    }
}

/// Put the errors of its form on the page of a review, with the notes and the marks
/// that its submission has against its target.
pub fn repeat_review(
    template: &mut DiscEditTemplate,
    errors: Vec<String>,
    linked: Vec<ApprovalConflict>,
    review_comment: Option<String>,
    db_snapshot: Option<&Json>,
    sub: &DiscSubmission,
    ref_data: &EditRefData,
) -> (r: Result<(), AppError>)
    requires
        db_snapshot matches Some(d) ==> resolution::snapshot_ok(d@, sub.changes@),
    ensures
        match db_snapshot {
            None => r is Ok && final(template)@ == repeated_review_view(
                old(template)@,
                text::texts(errors@),
                approval::conflict_views(linked@),
                review_template::opt_or_empty(review_comment),
                None,
                *ref_data,
            ),
            Some(d) => match resolution::resolved(d@, sub.changes@) {
                Err(x) => r matches Err(e) && e@ == x,
                Ok(s) => r is Ok && final(template)@ == repeated_review_view(
                    old(template)@,
                    text::texts(errors@),
                    approval::conflict_views(linked@),
                    review_template::opt_or_empty(review_comment),
                    Some((d@, s)),
                    *ref_data,
                ),
            },
        },
{
    put_errors(template, errors, linked, text_or_none(&review_comment));
    if let Some(db) = db_snapshot {
        let submitted = match resolve_submission_snapshot_for_submission(db, sub) {
            Err(e) => {
                return Err(e);
            },
            Ok(s) => s,
        };
        apply_review_diff_context(template, &submitted, db, ref_data, false);
        let highlights = compute_field_highlights(&submitted, db);
        apply_highlights(template, highlights);
    }
    Ok(())
}

fn put_errors(
    template: &mut DiscEditTemplate,
    errors: Vec<String>,
    linked: Vec<ApprovalConflict>,
    comment: String,
)
    ensures
        final(template)@ == (TemplateView {
            validation_errors: text::texts(errors@),
            linked_validation_errors: approval::conflict_views(linked@),
            review_comment_input: comment@,
            ..old(template)@
        }),
{
    template.validation_errors = errors;
    template.linked_validation_errors = linked;
    template.review_comment_input = comment;
}

// ── Laws ───────────────────────────────────────────────────────────────────

/// While nobody has decided on a submission, its row is labelled with the name of what it
/// is shown as.
pub proof fn law_labels_name_the_kind(entry: SubmissionListRow)
    requires
        models::is_unprocessed(entry.status),
    ensures
        row_label(entry) == models::display_kind_of(
            entry.submission_type,
            entry.status,
            entry.is_targeted(),
        ).name(),
{
}

/// A click on the head of the column that the list is sorted by turns the order round,
/// and a second click turns it back.
pub proof fn law_clicks_turn_the_order(column: ColumnView)
    ensures
        order_after_click(column, "asc"@, column) == "desc"@,
        order_after_click(column, "desc"@, column) == "asc"@,
{
    reveal_strlit("asc");
    reveal_strlit("desc");
    assert("asc"@.len() != "desc"@.len());
}

/// There are as many pages as hold all submissions: one fewer would not.
pub proof fn law_pages_hold_all(total: int, size: int)
    requires
        0 <= total,
        0 < size,
    ensures
        ({
            let pages = (total + size - 1) / size;
            pages * size >= total && (pages - 1) * size < total || (total == 0 && pages == 0)
        }),
{
    let pages = (total + size - 1) / size;
    assert(pages * size >= total && (pages - 1) * size < total || (total == 0 && pages == 0))
        by (nonlinear_arith)
        requires
            pages == (total + size - 1) / size,
            0 <= total,
            0 < size,
    {
    }
}

/// Comments that were put before a moderator keep the form from being approved.
pub proof fn law_unmerged_comments_are_an_error(
    errors: Seq<Seq<char>>,
    stored: JsonView,
    submitted: JsonView,
)
    ensures
        approval_errors(errors, Some(review_values::review_comments(stored, submitted))).len() > 0,
{
    review_values::law_composed_comments_are_unmerged(stored, submitted);
}

} // verus!
