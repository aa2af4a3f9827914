//! The queries of the submission queue.

use vstd::prelude::*;

use crate::numbers::{self, write_i64, write_u64};
use crate::text::{self, cat2, cat3, join_strings, str_eq};

verus! {

/// A submission that nobody has decided on.
pub const UNPROCESSED_SUBMISSION_SQL: &'static str = "ds.status IN ('Pending', 'Draft')";

/// The system of a submission. What a draft is aimed at stays hidden.
pub const SUBMISSION_LIST_SYSTEM_CODE_SQL: &'static str =
    "CASE WHEN ds.status = 'Draft' THEN
         COALESCE(ds.changes->'system_code'->'add'->>'new',
                  ds.changes->'system_code'->'modify'->>'new', '')
     ELSE COALESCE(d.system_code,
                  ds.changes->'system_code'->'add'->>'new',
                  ds.changes->'system_code'->'modify'->>'new', '') END";

/// The title of a submission.
pub const SUBMISSION_TITLE_SQL: &'static str =
    "COALESCE(NULLIF(ds.changes->'title'->'add'->>'new', ''),
                               NULLIF(ds.changes->'title'->'modify'->>'new', ''),
                               NULLIF(d.title, ''), 'Untitled')";

/// What a submission is shown as.
pub open spec fn display_kind_sql() -> Seq<char> {
    "CASE WHEN ds.submission_type = 'Edit' THEN 'Edit' WHEN NOT ("@ + UNPROCESSED_SUBMISSION_SQL@
        + ") THEN 'Disc' WHEN ds.target_disc_id IS NULL THEN 'New Disc' ELSE 'Verification' END"@
}

/// What a submission is shown as: an edit, a decided disc, a new disc or a verification.
pub fn submission_display_kind_sql() -> (r: String)
    ensures
        r@ == display_kind_sql(),
{
    cat3(
        "CASE WHEN ds.submission_type = 'Edit' THEN 'Edit' WHEN NOT (",
        UNPROCESSED_SUBMISSION_SQL,
        ") THEN 'Disc' WHEN ds.target_disc_id IS NULL THEN 'New Disc' ELSE 'Verification' END",
    )
}

/// The condition of a type filter.
pub open spec fn type_condition(filter: Option<Seq<char>>) -> Option<Seq<char>> {
    match filter {
        None => None,
        Some(f) => if f == "Edit"@ {
            Some("ds.submission_type = 'Edit'"@)
        } else if f == "New Disc"@ {
            Some(
                "ds.submission_type = 'Disc' AND "@ + UNPROCESSED_SUBMISSION_SQL@
                    + " AND ds.target_disc_id IS NULL"@,
            )
        } else if f == "Verification"@ {
            Some(
                "ds.submission_type = 'Disc' AND (NOT ("@ + UNPROCESSED_SUBMISSION_SQL@
                    + ") OR ds.target_disc_id IS NOT NULL)"@,
            )
        } else {
            None
        },
    }
}

/// The condition of a type filter; a filter that is no type restricts nothing.
pub fn submission_type_filter_condition(type_filter: Option<&str>) -> (r: Option<String>)
    ensures
        text::opt_text(r) == type_condition(text::opt_str(type_filter)),
{
    match type_filter {
        None => None,
        Some(f) => if str_eq(f, "Edit") {
            Some(String::from_str("ds.submission_type = 'Edit'"))
        } else if str_eq(f, "New Disc") {
            Some(
                cat3(
                    "ds.submission_type = 'Disc' AND ",
                    UNPROCESSED_SUBMISSION_SQL,
                    " AND ds.target_disc_id IS NULL",
                ),
            )
        } else if str_eq(f, "Verification") {
            Some(
                cat3(
                    "ds.submission_type = 'Disc' AND (NOT (",
                    UNPROCESSED_SUBMISSION_SQL,
                    ") OR ds.target_disc_id IS NOT NULL)",
                ),
            )
        } else {
            None
        },
    }
}

/// What restricts a list of submissions.
pub struct SubmissionFilter {
    pub user_id: Option<i32>,
    pub disc_id: Option<i32>,
    pub public_statuses_only: bool,
    pub hide_disabled_targets: bool,
    pub viewer_id: i32,
    pub can_view_all_drafts: bool,
    pub status: Option<String>,
    pub type_filter: Option<String>,
    pub system: Option<String>,
    pub submitter: Option<String>,
}

/// A value that is bound to a query.
#[derive(Debug, PartialEq, Eq)]
pub enum SqlParam {
    Number(i32),
    Text(String),
}

/// A bound value.
pub enum ParamView {
    Number(int),
    Text(Seq<char>),
}

impl View for SqlParam {
    type V = ParamView;

    open spec fn view(&self) -> ParamView {
        match *self {
            SqlParam::Number(n) => ParamView::Number(n as int),
            SqlParam::Text(t) => ParamView::Text(t@),
        }
    }
}

/// The bound values of a query.
pub open spec fn param_views(v: Seq<SqlParam>) -> Seq<ParamView> {
    v.map_values(|p: SqlParam| p@)
}

/// A text that is given and not empty.
pub open spec fn given(t: Option<Seq<char>>) -> bool {
    t is Some && t->0.len() > 0
}

/// A status that is compared with a bound value.
pub open spec fn binds_status(t: Option<Seq<char>>) -> bool {
    given(t) && t->0 != "Pending and Draft"@
}

/// One item, if it is wanted.
pub open spec fn opt_item<T>(wanted: bool, x: T) -> Seq<T> {
    if wanted {
        seq![x]
    } else {
        Seq::empty()
    }
}

/// One for what is bound.
pub open spec fn one_if(b: bool) -> nat {
    if b {
        1
    } else {
        0
    }
}

impl SubmissionFilter {
    /// The number of bound values up to the submitter's id.
    pub open spec fn params_to_user(&self) -> nat {
        one_if(self.user_id is Some)
    }

    /// The number of bound values up to the disc's id.
    pub open spec fn params_to_disc(&self) -> nat {
        self.params_to_user() + one_if(self.disc_id is Some)
    }

    /// The number of bound values up to the viewer's id.
    pub open spec fn params_to_viewer(&self) -> nat {
        self.params_to_disc() + one_if(!self.can_view_all_drafts)
    }

    /// The number of bound values up to the status.
    pub open spec fn params_to_status(&self) -> nat {
        self.params_to_viewer() + one_if(binds_status(text::opt_text(self.status)))
    }

    /// The number of bound values up to the system.
    pub open spec fn params_to_system(&self) -> nat {
        self.params_to_status() + one_if(given(text::opt_text(self.system)))
    }

    /// The number of bound values up to the submitter's name.
    pub open spec fn params_to_submitter(&self) -> nat {
        self.params_to_system() + one_if(given(text::opt_text(self.submitter)))
    }

    /// The condition that hides disabled targets, but not from the owner of a draft.
    pub open spec fn target_condition(&self) -> Seq<char> {
        if self.can_view_all_drafts {
            "(d.id IS NULL OR d.status <> 'Disabled')"@
        } else {
            "(d.id IS NULL OR d.status <> 'Disabled' OR (ds.status = 'Draft' AND ds.submitter_id = $"@
                + numbers::nat_text(self.params_to_viewer()) + "))"@
        }
    }

    /// The condition on the status.
    pub open spec fn status_condition(&self) -> Seq<char> {
        if binds_status(text::opt_text(self.status)) {
            "ds.status::text = $"@ + numbers::nat_text(self.params_to_status())
        } else {
            "ds.status IN ('Pending', 'Draft')"@
        }
    }

    /// The conditions of the query.
    pub open spec fn conditions(&self) -> Seq<Seq<char>> {
        seq!["1=1"@] + opt_item(
            self.user_id is Some,
            "ds.submitter_id = $"@ + numbers::nat_text(self.params_to_user()),
        ) + opt_item(
            self.disc_id is Some,
            "ds.target_disc_id = $"@ + numbers::nat_text(self.params_to_disc()),
        ) + opt_item(self.public_statuses_only, "ds.status IN ('Approved', 'Legacy')"@) + opt_item(
            !self.can_view_all_drafts,
            "(ds.status <> 'Draft' OR ds.submitter_id = $"@ + numbers::nat_text(self.params_to_viewer())
                + ")"@,
        ) + opt_item(self.hide_disabled_targets, self.target_condition()) + opt_item(
            given(text::opt_text(self.status)),
            self.status_condition(),
        ) + opt_item(
            type_condition(text::opt_text(self.type_filter)) is Some,
            type_condition(text::opt_text(self.type_filter))->0,
        ) + opt_item(
            given(text::opt_text(self.system)),
            SUBMISSION_LIST_SYSTEM_CODE_SQL@ + " = $"@ + numbers::nat_text(self.params_to_system()),
        ) + opt_item(
            given(text::opt_text(self.submitter)),
            "LOWER(u.username) = LOWER($"@ + numbers::nat_text(self.params_to_submitter()) + ")"@,
        )
    }

    /// The values that are bound, in the order of their numbers.
    pub open spec fn params(&self) -> Seq<ParamView> {
        opt_item(self.user_id is Some, ParamView::Number(self.user_id->0 as int)) + opt_item(
            self.disc_id is Some,
            ParamView::Number(self.disc_id->0 as int),
        ) + opt_item(!self.can_view_all_drafts, ParamView::Number(self.viewer_id as int)) + opt_item(
            binds_status(text::opt_text(self.status)),
            ParamView::Text(text::opt_text(self.status)->0),
        ) + opt_item(
            given(text::opt_text(self.system)),
            ParamView::Text(text::opt_text(self.system)->0),
        ) + opt_item(
            given(text::opt_text(self.submitter)),
            ParamView::Text(text::opt_text(self.submitter)->0),
        )
    }

    /// The `WHERE` clause, without the word.
    pub open spec fn where_sql(&self) -> Seq<char> {
        text::join(self.conditions(), " AND "@)
    }

    /// The conditions up to that on disabled targets, and the number of bound values.
    fn access_conditions(&self) -> (r: (Vec<String>, u64))
        ensures
            r.1 == self.params_to_viewer(),
            text::texts(r.0@) == seq!["1=1"@] + opt_item(
                self.user_id is Some,
                "ds.submitter_id = $"@ + numbers::nat_text(self.params_to_user()),
            ) + opt_item(
                self.disc_id is Some,
                "ds.target_disc_id = $"@ + numbers::nat_text(self.params_to_disc()),
            ) + opt_item(self.public_statuses_only, "ds.status IN ('Approved', 'Legacy')"@)
                + opt_item(
                !self.can_view_all_drafts,
                "(ds.status <> 'Draft' OR ds.submitter_id = $"@ + numbers::nat_text(self.params_to_viewer())
                    + ")"@,
            ) + opt_item(self.hide_disabled_targets, self.target_condition()),
    {
        let mut idx: u64 = 0;
        let mut out: Vec<String> = Vec::new();
        out.push(String::from_str("1=1"));
        assert(text::texts(out@) =~= seq!["1=1"@]);
        if self.user_id.is_some() {
            idx = idx + 1;
            push_text(&mut out, cat2("ds.submitter_id = $", write_u64(idx).as_str()));
        }
        if self.disc_id.is_some() {
            idx = idx + 1;
            push_text(&mut out, cat2("ds.target_disc_id = $", write_u64(idx).as_str()));
        }
        if self.public_statuses_only {
            push_text(&mut out, String::from_str("ds.status IN ('Approved', 'Legacy')"));
        }
        if !self.can_view_all_drafts {
            idx = idx + 1;
            push_text(
                &mut out,
                cat3(
                    "(ds.status <> 'Draft' OR ds.submitter_id = $",
                    write_u64(idx).as_str(),
                    ")",
                ),
            );
        }
        if self.hide_disabled_targets {
            if self.can_view_all_drafts {
                push_text(&mut out, String::from_str("(d.id IS NULL OR d.status <> 'Disabled')"));
            } else {
                push_text(
                    &mut out,
                    cat3(
                        "(d.id IS NULL OR d.status <> 'Disabled' OR (ds.status = 'Draft' AND ds.submitter_id = $",
                        write_u64(idx).as_str(),
                        "))",
                    ),
                );
            }
        }
        (out, idx)
    }

    /// The conditions of the query.
    pub fn write_conditions(&self) -> (r: Vec<String>)
        ensures
            text::texts(r@) == self.conditions(),
    {
        let (mut out, mut idx) = self.access_conditions();
        let status = text_given(&self.status);
        if let Some(s) = status {
            if str_eq(s, "Pending and Draft") {
                push_text(&mut out, String::from_str("ds.status IN ('Pending', 'Draft')"));
            } else {
                idx = idx + 1;
                push_text(&mut out, cat2("ds.status::text = $", write_u64(idx).as_str()));
            }
        }
        let type_filter: Option<&str> = match &self.type_filter {
            Some(t) => Some(t.as_str()),
            None => None,
        };
        if let Some(c) = submission_type_filter_condition(type_filter) {
            push_text(&mut out, c);
        }
        if text_given(&self.system).is_some() {
            idx = idx + 1;
            push_text(
                &mut out,
                cat3(SUBMISSION_LIST_SYSTEM_CODE_SQL, " = $", write_u64(idx).as_str()),
            );
        }
        if text_given(&self.submitter).is_some() {
            idx = idx + 1;
            push_text(
                &mut out,
                cat3("LOWER(u.username) = LOWER($", write_u64(idx).as_str(), ")"),
            );
        }
        out
    }

    /// The values that are bound, in the order of their numbers.
    pub fn write_params(&self) -> (r: Vec<SqlParam>)
        ensures
            param_views(r@) == self.params(),
    {
        let mut out: Vec<SqlParam> = Vec::new();
        assert(param_views(out@) =~= Seq::<ParamView>::empty());
        if let Some(id) = self.user_id {
            push_param(&mut out, SqlParam::Number(id));
        }
        if let Some(id) = self.disc_id {
            push_param(&mut out, SqlParam::Number(id));
        }
        if !self.can_view_all_drafts {
            push_param(&mut out, SqlParam::Number(self.viewer_id));
        }
        if let Some(s) = text_given(&self.status) {
            if !str_eq(s, "Pending and Draft") {
                push_param(&mut out, SqlParam::Text(String::from_str(s)));
            }
        }
        if let Some(s) = text_given(&self.system) {
            push_param(&mut out, SqlParam::Text(String::from_str(s)));
        }
        if let Some(s) = text_given(&self.submitter) {
            push_param(&mut out, SqlParam::Text(String::from_str(s)));
        }
        assert(param_views(out@) =~= self.params());
        out
    }
}

fn push_text(out: &mut Vec<String>, s: String)
    ensures
        text::texts(final(out)@) == text::texts(old(out)@).push(s@),
        text::texts(final(out)@) == text::texts(old(out)@) + seq![s@],
{
    let ghost before = out@;
    out.push(s);
    assert(text::texts(out@) =~= text::texts(before).push(s@));
}

fn push_param(out: &mut Vec<SqlParam>, p: SqlParam)
    ensures
        param_views(final(out)@) == param_views(old(out)@).push(p@),
        param_views(final(out)@) == param_views(old(out)@) + seq![p@],
{
    let ghost before = out@;
    out.push(p);
    assert(param_views(out@) =~= param_views(before).push(p@));
}

fn text_given(t: &Option<String>) -> (r: Option<&str>)
    ensures
        match r {
            Some(s) => given(text::opt_text(*t)) && s@ == t->0@,
            None => !given(text::opt_text(*t)),
        },
{
    match t {
        Some(s) => if s.as_str().is_empty() {
            None
        } else {
            Some(s.as_str())
        },
        None => None,
    }
}

// ── The list ───────────────────────────────────────────────────────────────

/// The full name of a submission's system.
pub open spec fn system_name_sql() -> Seq<char> {
    "CONCAT_WS(' ', NULLIF(s.manufacturer, ''), COALESCE(s.name, "@
        + SUBMISSION_LIST_SYSTEM_CODE_SQL@ + ", ''))"@
}

/// A column that a list can be sorted by. A request names it by its name in small
/// letters; a name that is none of these is kept.
#[derive(Debug, PartialEq, Eq)]
pub enum SortColumn {
    Date,
    Title,
    DiscId,
    System,
    Submitter,
    Reviewer,
    Type,
    Status,
    Other(String),
}

/// What a [`SortColumn`] denotes.
pub enum ColumnView {
    Date,
    Title,
    DiscId,
    System,
    Submitter,
    Reviewer,
    Type,
    Status,
    Other(Seq<char>),
}

impl View for SortColumn {
    type V = ColumnView;

    open spec fn view(&self) -> ColumnView {
        match *self {
            SortColumn::Date => ColumnView::Date,
            SortColumn::Title => ColumnView::Title,
            SortColumn::DiscId => ColumnView::DiscId,
            SortColumn::System => ColumnView::System,
            SortColumn::Submitter => ColumnView::Submitter,
            SortColumn::Reviewer => ColumnView::Reviewer,
            SortColumn::Type => ColumnView::Type,
            SortColumn::Status => ColumnView::Status,
            SortColumn::Other(s) => ColumnView::Other(s@),
        }
    }
}

impl SortColumn {
    /// A copy of the column.
    pub fn copy(&self) -> (r: SortColumn)
        ensures
            r@ == self@,
    {
        match self {
            SortColumn::Date => SortColumn::Date,
            SortColumn::Title => SortColumn::Title,
            SortColumn::DiscId => SortColumn::DiscId,
            SortColumn::System => SortColumn::System,
            SortColumn::Submitter => SortColumn::Submitter,
            SortColumn::Reviewer => SortColumn::Reviewer,
            SortColumn::Type => SortColumn::Type,
            SortColumn::Status => SortColumn::Status,
            SortColumn::Other(s) => SortColumn::Other(s.clone()),
        }
    }

    /// Whether this is the same column as another.
    pub fn is(&self, other: &SortColumn) -> (r: bool)
        ensures
            r == (self@ == other@),
    {
        match (self, other) {
            (SortColumn::Date, SortColumn::Date) => true,
            (SortColumn::Title, SortColumn::Title) => true,
            (SortColumn::DiscId, SortColumn::DiscId) => true,
            (SortColumn::System, SortColumn::System) => true,
            (SortColumn::Submitter, SortColumn::Submitter) => true,
            (SortColumn::Reviewer, SortColumn::Reviewer) => true,
            (SortColumn::Type, SortColumn::Type) => true,
            (SortColumn::Status, SortColumn::Status) => true,
            (SortColumn::Other(a), SortColumn::Other(b)) => str_eq(a.as_str(), b.as_str()),
            _ => false,
        }
    }
}

/// What a list is sorted by.
pub open spec fn sort_column_sql(column: ColumnView) -> Seq<char> {
    match column {
        ColumnView::Title => "LOWER("@ + SUBMISSION_TITLE_SQL@ + ")"@,
        ColumnView::DiscId => "ds.target_disc_id"@,
        ColumnView::System => "LOWER("@ + system_name_sql() + ")"@,
        ColumnView::Submitter => "LOWER(u.username)"@,
        ColumnView::Reviewer => "LOWER(COALESCE(ur.username, ''))"@,
        ColumnView::Type => display_kind_sql(),
        ColumnView::Status => "ds.status"@,
        ColumnView::Date => "ds.created_at"@,
        ColumnView::Other(_) => "ds.created_at"@,
    }
}

/// What a list is sorted by; an unknown column is the date.
pub fn sort_column(column: &SortColumn) -> (r: String)
    ensures
        r@ == sort_column_sql(column@),
{
    match column {
        SortColumn::Title => cat3("LOWER(", SUBMISSION_TITLE_SQL, ")"),
        SortColumn::DiscId => String::from_str("ds.target_disc_id"),
        SortColumn::System => {
            let name = cat3(
                "CONCAT_WS(' ', NULLIF(s.manufacturer, ''), COALESCE(s.name, ",
                SUBMISSION_LIST_SYSTEM_CODE_SQL,
                ", ''))",
            );
            cat3("LOWER(", name.as_str(), ")")
        },
        SortColumn::Submitter => String::from_str("LOWER(u.username)"),
        SortColumn::Reviewer => String::from_str("LOWER(COALESCE(ur.username, ''))"),
        SortColumn::Type => submission_display_kind_sql(),
        SortColumn::Status => String::from_str("ds.status"),
        SortColumn::Date => String::from_str("ds.created_at"),
        SortColumn::Other(_) => String::from_str("ds.created_at"),
    }
}

/// The order of a list: what it is sorted by, which way, and where missing discs come.
pub open spec fn order_sql(column: ColumnView, order: Seq<char>) -> Seq<char> {
    sort_column_sql(column) + (if order == "asc"@ {
        " ASC"@
    } else {
        " DESC"@
    }) + (if column == ColumnView::DiscId {
        " NULLS LAST"@
    } else {
        Seq::empty()
    })
}

fn write_order(column: &SortColumn, order: &str) -> (r: String)
    ensures
        r@ == order_sql(column@, order@),
{
    let mut s = sort_column(column);
    if str_eq(order, "asc") {
        s.append(" ASC");
    } else {
        s.append(" DESC");
    }
    if matches!(column, SortColumn::DiscId) {
        s.append(" NULLS LAST");
    }
    assert(s@ =~= order_sql(column@, order@));
    s
}

/// The query that lists submissions.
pub open spec fn list_sql(
    filter: SubmissionFilter,
    column: ColumnView,
    order: Seq<char>,
    page: int,
    page_size: int,
) -> Seq<char> {
    "SELECT ds.id, ds.submission_type,
                ds.target_disc_id IS NOT NULL AS submission_has_target_disc,
                "@ + SUBMISSION_TITLE_SQL@ + " AS title,
                "@ + SUBMISSION_LIST_SYSTEM_CODE_SQL@ + " AS system_code,
                COALESCE(s.short_name, '') AS system_short_name,
                u.username AS submitter,
                ds.submitter_id,
                ur.username AS reviewed_by,
                ds.reviewer_id,
                ds.status,
                CASE WHEN ds.status = 'Draft' THEN NULL ELSE ds.target_disc_id END AS target_disc_id,
                ds.created_at
         FROM disc_submissions ds
         JOIN users u ON u.id = ds.submitter_id
         LEFT JOIN users ur ON ur.id = ds.reviewer_id
         LEFT JOIN discs d ON d.id = ds.target_disc_id
         LEFT JOIN systems s
             ON s.code = "@ + SUBMISSION_LIST_SYSTEM_CODE_SQL@ + "
         WHERE "@ + filter.where_sql() + "
         ORDER BY "@ + order_sql(column, order) + "
         LIMIT "@ + numbers::int_text(page_size) + " OFFSET "@ + numbers::int_text((page - 1) * page_size)
}

/// The query that lists submissions. The page and its size must give a position that can
/// be counted.
pub fn list_submissions_sql(
    filter: &SubmissionFilter,
    sort_column: &SortColumn,
    sort_order: &str,
    page: i64,
    page_size: i64,
) -> (r: String)
    requires
        i64::MIN <= page - 1,
        i64::MIN <= (page - 1) * page_size <= i64::MAX,
    ensures
        r@ == list_sql(*filter, sort_column@, sort_order@, page as int, page_size as int),
{
    let before: i64 = page - 1;
    let offset: i64 = before * page_size;
    let conditions = filter.write_conditions();
    let mut s = String::from_str(
        "SELECT ds.id, ds.submission_type,
                ds.target_disc_id IS NOT NULL AS submission_has_target_disc,
                ",
    );
    s.append(SUBMISSION_TITLE_SQL);
    s.append(" AS title,
                ");
    s.append(SUBMISSION_LIST_SYSTEM_CODE_SQL);
    s.append(
        " AS system_code,
                COALESCE(s.short_name, '') AS system_short_name,
                u.username AS submitter,
                ds.submitter_id,
                ur.username AS reviewed_by,
                ds.reviewer_id,
                ds.status,
                CASE WHEN ds.status = 'Draft' THEN NULL ELSE ds.target_disc_id END AS target_disc_id,
                ds.created_at
         FROM disc_submissions ds
         JOIN users u ON u.id = ds.submitter_id
         LEFT JOIN users ur ON ur.id = ds.reviewer_id
         LEFT JOIN discs d ON d.id = ds.target_disc_id
         LEFT JOIN systems s
             ON s.code = ",
    );
    s.append(SUBMISSION_LIST_SYSTEM_CODE_SQL);
    s.append("
         WHERE ");
    s.append(join_strings(&conditions, " AND ").as_str());
    s.append("
         ORDER BY ");
    s.append(write_order(sort_column, sort_order).as_str());
    s.append("
         LIMIT ");
    s.append(write_i64(page_size).as_str());
    s.append(" OFFSET ");
    s.append(write_i64(offset).as_str());
    s
}

/// The query that counts submissions.
pub open spec fn count_sql(filter: SubmissionFilter) -> Seq<char> {
    "SELECT COUNT(*)
         FROM disc_submissions ds
         JOIN users u ON u.id = ds.submitter_id
         LEFT JOIN discs d ON d.id = ds.target_disc_id
         WHERE "@ + filter.where_sql()
}

/// The query that counts submissions: the same restrictions as for the list.
pub fn count_submissions_sql(filter: &SubmissionFilter) -> (r: String)
    ensures
        r@ == count_sql(*filter),
{
    let conditions = filter.write_conditions();
    cat2(
        "SELECT COUNT(*)
         FROM disc_submissions ds
         JOIN users u ON u.id = ds.submitter_id
         LEFT JOIN discs d ON d.id = ds.target_disc_id
         WHERE ",
        join_strings(&conditions, " AND ").as_str(),
    )
}

// ── Laws ───────────────────────────────────────────────────────────────────

proof fn lemma_opt_item(a: Seq<ParamView>, wanted: bool, x: ParamView)
    ensures
        (a + opt_item(wanted, x)).len() == a.len() + one_if(wanted),
        wanted ==> (a + opt_item(wanted, x))[a.len() as int] == x,
        forall|i: int|
            0 <= i < a.len() ==> #[trigger] (a + opt_item(wanted, x))[i] == a[i],
{
}

/// The number that a condition names is the position at which its value is bound, and
/// no value is bound without a condition.
pub proof fn law_parameters_line_up(f: SubmissionFilter)
    ensures
        f.params().len() == f.params_to_submitter(),
        f.user_id matches Some(id) ==> f.params()[f.params_to_user() - 1] == ParamView::Number(
            id as int,
        ),
        f.disc_id matches Some(id) ==> f.params()[f.params_to_disc() - 1] == ParamView::Number(
            id as int,
        ),
        !f.can_view_all_drafts ==> f.params()[f.params_to_viewer() - 1] == ParamView::Number(
            f.viewer_id as int,
        ),
        binds_status(text::opt_text(f.status)) ==> f.params()[f.params_to_status() - 1]
            == ParamView::Text(text::opt_text(f.status)->0),
        given(text::opt_text(f.system)) ==> f.params()[f.params_to_system() - 1] == ParamView::Text(
            text::opt_text(f.system)->0,
        ),
        given(text::opt_text(f.submitter)) ==> f.params()[f.params_to_submitter() - 1]
            == ParamView::Text(text::opt_text(f.submitter)->0),
{
    let p0 = Seq::<ParamView>::empty();
    let x1 = ParamView::Number(f.user_id->0 as int);
    let x2 = ParamView::Number(f.disc_id->0 as int);
    let x3 = ParamView::Number(f.viewer_id as int);
    let x4 = ParamView::Text(text::opt_text(f.status)->0);
    let x5 = ParamView::Text(text::opt_text(f.system)->0);
    let x6 = ParamView::Text(text::opt_text(f.submitter)->0);
    let p1 = opt_item(f.user_id is Some, x1);
    assert(p0 + p1 =~= p1);
    lemma_opt_item(p0, f.user_id is Some, x1);
    let p2 = p1 + opt_item(f.disc_id is Some, x2);
    lemma_opt_item(p1, f.disc_id is Some, x2);
    let p3 = p2 + opt_item(!f.can_view_all_drafts, x3);
    lemma_opt_item(p2, !f.can_view_all_drafts, x3);
    let p4 = p3 + opt_item(binds_status(text::opt_text(f.status)), x4);
    lemma_opt_item(p3, binds_status(text::opt_text(f.status)), x4);
    let p5 = p4 + opt_item(given(text::opt_text(f.system)), x5);
    lemma_opt_item(p4, given(text::opt_text(f.system)), x5);
    lemma_opt_item(p5, given(text::opt_text(f.submitter)), x6);
}

proof fn lemma_still_contains(a: Seq<Seq<char>>, b: Seq<Seq<char>>, x: Seq<char>)
    requires
        a.contains(x),
    ensures
        (a + b).contains(x),
{
    let k = choose|k: int| 0 <= k < a.len() && a[k] == x;
    assert((a + b)[k] == x);
}

proof fn lemma_pushed_is_contained(a: Seq<Seq<char>>, x: Seq<char>)
    ensures
        (a + opt_item(true, x)).contains(x),
{
    assert((a + opt_item(true, x))[a.len() as int] == x);
}

/// Whoever may not see all drafts has them filtered: the query holds the condition that
/// a draft is their own.
pub proof fn law_drafts_are_filtered(f: SubmissionFilter)
    requires
        !f.can_view_all_drafts,
    ensures
        f.conditions().contains(
            "(ds.status <> 'Draft' OR ds.submitter_id = $"@ + numbers::nat_text(f.params_to_viewer())
                + ")"@,
        ),
{
    let draft = "(ds.status <> 'Draft' OR ds.submitter_id = $"@ + numbers::nat_text(f.params_to_viewer())
        + ")"@;
    let c2 = "ds.target_disc_id = $"@ + numbers::nat_text(f.params_to_disc());
    let p0 = seq!["1=1"@] + opt_item(
        f.user_id is Some,
        "ds.submitter_id = $"@ + numbers::nat_text(f.params_to_user()),
    ) + opt_item(f.disc_id is Some, c2) + opt_item(
        f.public_statuses_only,
        "ds.status IN ('Approved', 'Legacy')"@,
    );
    lemma_pushed_is_contained(p0, draft);
    let p1 = p0 + opt_item(true, draft);
    let a = opt_item(f.hide_disabled_targets, f.target_condition());
    let b = opt_item(given(text::opt_text(f.status)), f.status_condition());
    let t = type_condition(text::opt_text(f.type_filter));
    let c = opt_item(t is Some, t->0);
    let d = opt_item(
        given(text::opt_text(f.system)),
        SUBMISSION_LIST_SYSTEM_CODE_SQL@ + " = $"@ + numbers::nat_text(f.params_to_system()),
    );
    let e = opt_item(
        given(text::opt_text(f.submitter)),
        "LOWER(u.username) = LOWER($"@ + numbers::nat_text(f.params_to_submitter()) + ")"@,
    );
    lemma_still_contains(p1, a, draft);
    lemma_still_contains(p1 + a, b, draft);
    lemma_still_contains(p1 + a + b, c, draft);
    lemma_still_contains(p1 + a + b + c, d, draft);
    lemma_still_contains(p1 + a + b + c + d, e, draft);
}

} // verus!
