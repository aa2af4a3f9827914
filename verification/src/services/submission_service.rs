//! The plain list of submissions and the plain way of deciding on one.

use vstd::prelude::*;

use crate::error::{AppError, ErrorView, bad_request};
use crate::json::{self, Json};
use crate::models::{DiscSubmission, SubmissionStatus, SubmissionType};
use crate::numbers::{self, write_i64, write_u64};
use crate::services::queue_sql::{self, ParamView, SqlParam};
use crate::services::validation::{self, chars_attribute};
use crate::text::{
    self, cat2, cat3, chars_lines, chars_of, chars_start_with, chars_trim, join_strings, str_eq,
};

verus! {

/// What restricts the plain list of submissions.
pub struct PlainFilter {
    pub user_id: Option<i32>,
    pub status: Option<String>,
    pub type_filter: Option<String>,
}

impl PlainFilter {
    /// The number of bound values up to the submitter's id.
    pub open spec fn to_user(&self) -> nat {
        queue_sql::one_if(self.user_id is Some)
    }

    /// The number of bound values up to the status.
    pub open spec fn to_status(&self) -> nat {
        self.to_user() + queue_sql::one_if(queue_sql::given(text::opt_text(self.status)))
    }

    /// The number of bound values up to the type.
    pub open spec fn to_type(&self) -> nat {
        self.to_status() + queue_sql::one_if(queue_sql::given(text::opt_text(self.type_filter)))
    }

    /// The conditions, each column behind a prefix.
    pub open spec fn conditions(&self, prefix: Seq<char>) -> Seq<Seq<char>> {
        seq!["1=1"@] + queue_sql::opt_item(
            self.user_id is Some,
            prefix + "submitter_id = $"@ + numbers::nat_text(self.to_user()),
        ) + queue_sql::opt_item(
            queue_sql::given(text::opt_text(self.status)),
            prefix + "status::text = $"@ + numbers::nat_text(self.to_status()),
        ) + queue_sql::opt_item(
            queue_sql::given(text::opt_text(self.type_filter)),
            prefix + "submission_type::text = $"@ + numbers::nat_text(self.to_type()),
        )
    }

    /// The values that are bound, in the order of their numbers.
    pub open spec fn params(&self) -> Seq<ParamView> {
        queue_sql::opt_item(self.user_id is Some, ParamView::Number(self.user_id->0 as int)) + queue_sql::opt_item(
            queue_sql::given(text::opt_text(self.status)),
            ParamView::Text(text::opt_text(self.status)->0),
        ) + queue_sql::opt_item(
            queue_sql::given(text::opt_text(self.type_filter)),
            ParamView::Text(text::opt_text(self.type_filter)->0),
        )
    }

    /// The conditions, each column behind a prefix.
    pub fn write_conditions(&self, prefix: &str) -> (r: Vec<String>)
        ensures
            text::texts(r@) == self.conditions(prefix@),
    {
        let mut idx: u64 = 0;
        let mut out: Vec<String> = Vec::new();
        out.push(String::from_str("1=1"));
        assert(text::texts(out@) =~= seq!["1=1"@]);
        if self.user_id.is_some() {
            idx = idx + 1;
            let ghost before = out@;
            out.push(cat3(prefix, "submitter_id = $", write_u64(idx).as_str()));
            assert(text::texts(out@) =~= text::texts(before).push(
                prefix@ + "submitter_id = $"@ + numbers::nat_text(idx as nat),
            ));
        }
        if nonempty_text(&self.status) {
            idx = idx + 1;
            let ghost before = out@;
            out.push(cat3(prefix, "status::text = $", write_u64(idx).as_str()));
            assert(text::texts(out@) =~= text::texts(before).push(
                prefix@ + "status::text = $"@ + numbers::nat_text(idx as nat),
            ));
        }
        if nonempty_text(&self.type_filter) {
            idx = idx + 1;
            let ghost before = out@;
            out.push(cat3(prefix, "submission_type::text = $", write_u64(idx).as_str()));
            assert(text::texts(out@) =~= text::texts(before).push(
                prefix@ + "submission_type::text = $"@ + numbers::nat_text(idx as nat),
            ));
        }
        assert(text::texts(out@) =~= self.conditions(prefix@));
        out
    }

    /// The values that are bound, in the order of their numbers.
    pub fn write_params(&self) -> (r: Vec<SqlParam>)
        ensures
            queue_sql::param_views(r@) == self.params(),
    {
        let mut out: Vec<SqlParam> = Vec::new();
        if let Some(id) = self.user_id {
            out.push(SqlParam::Number(id));
        }
        if let Some(s) = &self.status {
            if !s.as_str().is_empty() {
                out.push(SqlParam::Text(s.clone()));
            }
        }
        if let Some(s) = &self.type_filter {
            if !s.as_str().is_empty() {
                out.push(SqlParam::Text(s.clone()));
            }
        }
        assert(queue_sql::param_views(out@) =~= self.params());
        out
    }
}

fn nonempty_text(t: &Option<String>) -> (r: bool)
    ensures
        r == queue_sql::given(text::opt_text(*t)),
{
    match t {
        Some(s) => !s.as_str().is_empty(),
        None => false,
    }
}

/// The query that lists submissions, the newest first.
pub open spec fn plain_list_sql(filter: PlainFilter, page: int, page_size: int) -> Seq<char> {
    "SELECT ds.id, ds.submission_type, COALESCE(d.title, ds.changes->>'title', 'Untitled') AS title,
                u.username AS submitter, ds.status, ds.review_comment, ds.created_at
         FROM disc_submissions ds
         JOIN users u ON u.id = ds.submitter_id
         LEFT JOIN discs d ON d.id = ds.target_disc_id
         WHERE "@ + text::join(filter.conditions("ds."@), " AND "@) + "
         ORDER BY ds.created_at DESC
         LIMIT "@ + numbers::int_text(page_size) + " OFFSET "@ + numbers::int_text((page - 1) * page_size)
}

/// The query that lists submissions. The page and its size must give a position that can
/// be counted.
pub fn list_submissions_query(filter: &PlainFilter, page: i64, page_size: i64) -> (r: String)
    requires
        i64::MIN <= page - 1,
        i64::MIN <= (page - 1) * page_size <= i64::MAX,
    ensures
        r@ == plain_list_sql(*filter, page as int, page_size as int),
{
    let before: i64 = page - 1;
    let offset: i64 = before * page_size;
    let conditions = filter.write_conditions("ds.");
    let mut s = String::from_str(
        "SELECT ds.id, ds.submission_type, COALESCE(d.title, ds.changes->>'title', 'Untitled') AS title,
                u.username AS submitter, ds.status, ds.review_comment, ds.created_at
         FROM disc_submissions ds
         JOIN users u ON u.id = ds.submitter_id
         LEFT JOIN discs d ON d.id = ds.target_disc_id
         WHERE ",
    );
    s.append(join_strings(&conditions, " AND ").as_str());
    s.append("
         ORDER BY ds.created_at DESC
         LIMIT ");
    s.append(write_i64(page_size).as_str());
    s.append(" OFFSET ");
    s.append(write_i64(offset).as_str());
    s
}

/// The query that counts submissions.
pub fn count_submissions_query(filter: &PlainFilter) -> (r: String)
    ensures
        r@ == "SELECT COUNT(*) FROM disc_submissions WHERE "@ + text::join(
            filter.conditions(Seq::empty()),
            " AND "@,
        ),
{
    proof {
        reveal_strlit("");
        assert(""@ =~= Seq::<char>::empty());
    }
    let conditions = filter.write_conditions("");
    cat2(
        "SELECT COUNT(*) FROM disc_submissions WHERE ",
        join_strings(&conditions, " AND ").as_str(),
    )
}

/// The number that a condition names is the position at which its value is bound.
pub proof fn law_plain_parameters_line_up(f: PlainFilter)
    ensures
        f.params().len() == f.to_type(),
        f.user_id matches Some(id) ==> f.params()[f.to_user() - 1] == ParamView::Number(id as int),
        queue_sql::given(text::opt_text(f.status)) ==> f.params()[f.to_status() - 1] == ParamView::Text(
            text::opt_text(f.status)->0,
        ),
        queue_sql::given(text::opt_text(f.type_filter)) ==> f.params()[f.to_type() - 1] == ParamView::Text(
            text::opt_text(f.type_filter)->0,
        ),
{
}

// ── Files ──────────────────────────────────────────────────────────────────

/// The SHA-1 attributes of the file lines of a DAT.
pub open spec fn sha1_attributes(ls: Seq<Seq<char>>) -> Seq<Seq<char>>
    decreases ls.len(),
{
    if ls.len() == 0 {
        Seq::empty()
    } else {
        let before = sha1_attributes(ls.drop_last());
        let line = text::trim(ls.last());
        if text::starts_with(line, "<rom "@) && validation::attribute(line, "sha1"@) is Some {
            before.push(validation::attribute(line, "sha1"@)->0)
        } else {
            before
        }
    }
}

/// The SHA-1 sums by which a disc with one of the submitted files is looked for, in
/// order.
pub fn submitted_sha1s(data: &Json) -> (r: Vec<String>)
    ensures
        text::texts(r@) == (match json::as_text(json::field(data@, "files_xml"@)) {
            Some(s) => sha1_attributes(text::lines(s)),
            None => Seq::empty(),
        }),
{
    let mut out: Vec<String> = Vec::new();
    assert(text::texts(out@) =~= Seq::<Seq<char>>::empty());
    let xml = match data.field("files_xml").as_str() {
        Some(s) => s,
        None => {
            return out;
        },
    };
    let chars = chars_of(xml);
    let ls = chars_lines(&chars);
    let ghost all = text::slices(ls@);
    assert(all.take(0) =~= Seq::<Seq<char>>::empty());
    for i in 0..ls.len()
        invariant
            json::as_text(json::field(data@, "files_xml"@)) == Some(xml@),
            all == text::slices(ls@),
            all == text::lines(xml@),
            text::texts(out@) == sha1_attributes(all.take(i as int)),
    {
        let line = chars_trim(ls[i]);
        proof {
            let t = all.take(i + 1);
            assert(t.drop_last() =~= all.take(i as int));
            assert(t.last() == ls@[i as int]@);
        }
        if chars_start_with(line, "<rom ") {
            if let Some(sha1) = chars_attribute(line, "sha1") {
                let ghost before = out@;
                out.push(sha1);
                assert(text::texts(out@) =~= text::texts(before).push(sha1@));
            }
        }
    }
    assert(all.take(all.len() as int) =~= all);
    out
}

// ── Deciding ───────────────────────────────────────────────────────────────

/// A plain decision.
#[derive(Clone, Copy, Debug, PartialEq, Eq, Structural)]
pub enum ReviewDecision {
    Approve,
    Deny,
}

/// Reads a decision.
pub fn read_decision(action: &str) -> (r: Result<ReviewDecision, AppError>)
    ensures
        if action@ == "approve"@ {
            r == Ok::<ReviewDecision, AppError>(ReviewDecision::Approve)
        } else if action@ == "deny"@ {
            r == Ok::<ReviewDecision, AppError>(ReviewDecision::Deny)
        } else {
            r matches Err(e) && e@ == ErrorView::BadRequest("Invalid action"@)
        },
{
    if str_eq(action, "approve") {
        Ok(ReviewDecision::Approve)
    } else if str_eq(action, "deny") {
        Ok(ReviewDecision::Deny)
    } else {
        Err(bad_request("Invalid action"))
    }
}

/// What a plain decision writes besides the status.
#[derive(Clone, Copy, Debug, PartialEq, Eq, Structural)]
pub enum ReviewWrite {
    /// Nothing.
    StatusOnly,
    /// The submitter becomes a dumper of the disc.
    AddDumper(i32),
    /// A disc is created and becomes the target.
    CreateDisc,
    /// The disc is updated.
    UpdateDisc(i32),
}

/// What a plain decision writes: a submission is decided on once; an approved disc is
/// verified or created, an approved edit is carried out where it has a target.
pub fn plan_review(sub: &DiscSubmission, decision: ReviewDecision) -> (r: Result<
    ReviewWrite,
    AppError,
>)
    ensures
        if sub.status != SubmissionStatus::Pending {
            r matches Err(e) && e@ == ErrorView::BadRequest("Submission already reviewed"@)
        } else {
            r == Ok::<ReviewWrite, AppError>(
                match (decision, sub.submission_type, sub.target_disc_id) {
                    (ReviewDecision::Deny, _, _) => ReviewWrite::StatusOnly,
                    (ReviewDecision::Approve, SubmissionType::Disc, Some(id)) =>
                        ReviewWrite::AddDumper(id),
                    (ReviewDecision::Approve, SubmissionType::Disc, None) => ReviewWrite::CreateDisc,
                    (ReviewDecision::Approve, SubmissionType::Edit, Some(id)) =>
                        ReviewWrite::UpdateDisc(id),
                    (ReviewDecision::Approve, SubmissionType::Edit, None) => ReviewWrite::StatusOnly,
                },
            )
        },
{
    if sub.status != SubmissionStatus::Pending {
        return Err(bad_request("Submission already reviewed"));
    }
    Ok(
        match decision {
            ReviewDecision::Deny => ReviewWrite::StatusOnly,
            ReviewDecision::Approve => match (sub.submission_type, sub.target_disc_id) {
                (SubmissionType::Disc, Some(id)) => ReviewWrite::AddDumper(id),
                (SubmissionType::Disc, None) => ReviewWrite::CreateDisc,
                (SubmissionType::Edit, Some(id)) => ReviewWrite::UpdateDisc(id),
                (SubmissionType::Edit, None) => ReviewWrite::StatusOnly,
            },
        },
    )
}

} // verus!
