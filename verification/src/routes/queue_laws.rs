//! What the queue lists and in which order.

use vstd::prelude::*;

use crate::json::JsonView;
use crate::models::{
    self, DiscStatus, SubmissionDisplayKind, SubmissionStatus, SubmissionType, System,
};
use crate::numbers;
use crate::routes::queue;
use crate::services::dump_text;
use crate::services::hex_dump;
use crate::services::queue_sql::{
    self, ColumnView, ParamView, SUBMISSION_LIST_SYSTEM_CODE_SQL, SubmissionFilter,
};
use crate::text;

verus! {

// ── Who may see what ───────────────────────────────────────────────────────

/// Everyone may see what was approved, now or long ago, and nothing that is open or was
/// rejected.
pub proof fn law_public_submissions()
    ensures
        queue::is_public(SubmissionStatus::Approved),
        queue::is_public(SubmissionStatus::Legacy),
        !queue::is_public(SubmissionStatus::Pending),
        !queue::is_public(SubmissionStatus::Draft),
        !queue::is_public(SubmissionStatus::Rejected),
{
}

/// What a submission is shown as: an edit whatever its status; a submission of a disc as new
/// or as a verification only while it is open, by whether it has a target.
pub proof fn law_kinds_of_submissions(status: SubmissionStatus, has_target: bool)
    ensures
        models::display_kind_of(SubmissionType::Edit, status, has_target) == SubmissionDisplayKind::Edit,
        status == SubmissionStatus::Pending || status == SubmissionStatus::Draft
            ==> models::display_kind_of(SubmissionType::Disc, status, true)
            == SubmissionDisplayKind::Verification && models::display_kind_of(
            SubmissionType::Disc,
            status,
            false,
        ) == SubmissionDisplayKind::NewDisc,
        status == SubmissionStatus::Approved || status == SubmissionStatus::Rejected || status
            == SubmissionStatus::Legacy ==> models::display_kind_of(SubmissionType::Disc, status, has_target)
            == SubmissionDisplayKind::Disc,
{
}

/// No two kinds, types or statuses have the same name.
pub proof fn law_names_differ(
    a: SubmissionDisplayKind,
    b: SubmissionDisplayKind,
    s: SubmissionStatus,
    t: SubmissionStatus,
    x: DiscStatus,
    y: DiscStatus,
)
    ensures
        a.name() == b.name() ==> a == b,
        s.name() == t.name() ==> s == t,
        x.name() == y.name() ==> x == y,
        SubmissionType::Disc.name() != SubmissionType::Edit.name(),
{
    reveal_strlit("Edit");
    reveal_strlit("Disc");
    reveal_strlit("New Disc");
    reveal_strlit("Verification");
    reveal_strlit("Pending");
    reveal_strlit("Draft");
    reveal_strlit("Approved");
    reveal_strlit("Rejected");
    reveal_strlit("Legacy");
    reveal_strlit("Disabled");
    reveal_strlit("Questionable");
    reveal_strlit("Unverified");
    reveal_strlit("Verified");
    assert("Edit"@.len() == 4 && "Disc"@.len() == 4 && "New Disc"@.len() == 8);
    assert("Verification"@.len() == 12 && "Edit"@[0] == 'E' && "Disc"@[0] == 'D');
    assert("Pending"@.len() == 7 && "Draft"@.len() == 5 && "Approved"@.len() == 8);
    assert("Rejected"@.len() == 8 && "Legacy"@.len() == 6);
    assert("Approved"@[0] == 'A' && "Rejected"@[0] == 'R');
    assert("Disabled"@.len() == 8 && "Questionable"@.len() == 12 && "Unverified"@.len() == 10);
    assert("Verified"@.len() == 8 && "Disabled"@[0] == 'D' && "Verified"@[0] == 'V');
}

// ── Filters ────────────────────────────────────────────────────────────────

/// The queue is filtered by a status that it knows, and by open submissions where it is asked
/// for another one or for none.
pub proof fn law_statuses_of_the_queue(s: String)
    ensures
        s@ == "All Statuses"@ || s@ == "Approved"@ || s@ == "Rejected"@ || s@ == "Legacy"@ || s@
            == "Pending"@ ==> queue::queue_status(Some(s)) == s@,
        !(s@ == "All Statuses"@ || s@ == "Approved"@ || s@ == "Rejected"@ || s@ == "Legacy"@)
            ==> queue::queue_status(Some(s)) == "Pending"@,
        queue::queue_status(None) == "Pending"@,
{
    reveal_strlit("All Statuses");
    reveal_strlit("Approved");
    reveal_strlit("Rejected");
    reveal_strlit("Legacy");
    reveal_strlit("Pending");
    assert("Pending"@.len() == 7 && "All Statuses"@.len() == 12 && "Approved"@.len() == 8);
    assert("Rejected"@.len() == 8 && "Legacy"@.len() == 6);
}

/// Some condition of a filter is a text with the number of a bound value behind it.
#[verifier::opaque]
pub open spec fn binds(f: SubmissionFilter, head: Seq<char>, tail: Seq<char>, v: ParamView) -> bool {
    exists|n: nat|
        {
            &&& 0 < n <= f.params().len()
            &&& f.params()[n - 1] == v
            &&& f.conditions().contains(head + #[trigger] numbers::nat_text(n) + tail)
        }
}

/// Everything that the queue is filtered by is among the conditions of its query, with the
/// value that is asked for bound to it.
pub proof fn law_filters_are_applied(f: SubmissionFilter)
    ensures
        f.user_id matches Some(id) ==> binds(
            f,
            "ds.submitter_id = $"@,
            Seq::empty(),
            ParamView::Number(id as int),
        ),
        f.disc_id matches Some(id) ==> binds(
            f,
            "ds.target_disc_id = $"@,
            Seq::empty(),
            ParamView::Number(id as int),
        ),
        f.public_statuses_only ==> f.conditions().contains("ds.status IN ('Approved', 'Legacy')"@),
        !f.can_view_all_drafts ==> binds(
            f,
            "(ds.status <> 'Draft' OR ds.submitter_id = $"@,
            ")"@,
            ParamView::Number(f.viewer_id as int),
        ),
        f.status matches Some(s) && s@.len() > 0 && s@ != "Pending and Draft"@ ==> binds(
            f,
            "ds.status::text = $"@,
            Seq::empty(),
            ParamView::Text(f.status->0@),
        ),
        f.system matches Some(s) && s@.len() > 0 ==> binds(
            f,
            SUBMISSION_LIST_SYSTEM_CODE_SQL@ + " = $"@,
            Seq::empty(),
            ParamView::Text(f.system->0@),
        ),
        f.submitter matches Some(s) && s@.len() > 0 ==> binds(
            f,
            "LOWER(u.username) = LOWER($"@,
            ")"@,
            ParamView::Text(f.submitter->0@),
        ),
{
    lemma_bound(f);
    lemma_places(f);
    let none = Seq::<char>::empty();
    let k1: int = 1;
    let k2 = k1 + queue_sql::one_if(f.user_id is Some);
    let k4 = k2 + queue_sql::one_if(f.disc_id is Some) + queue_sql::one_if(f.public_statuses_only);
    let k6 = k4 + queue_sql::one_if(!f.can_view_all_drafts) + queue_sql::one_if(f.hide_disabled_targets);
    let k8 = k6 + queue_sql::one_if(queue_sql::given(text::opt_text(f.status))) + queue_sql::one_if(
        queue_sql::type_condition(text::opt_text(f.type_filter)) is Some,
    );
    let k9 = k8 + queue_sql::one_if(queue_sql::given(text::opt_text(f.system)));
    if let Some(id) = f.user_id {
        lemma_binds(f, "ds.submitter_id = $"@, none, ParamView::Number(id as int), f.params_to_user(), k1);
    }
    if let Some(id) = f.disc_id {
        lemma_binds(
            f,
            "ds.target_disc_id = $"@,
            none,
            ParamView::Number(id as int),
            f.params_to_disc(),
            k2,
        );
    }
    if !f.can_view_all_drafts {
        lemma_binds(
            f,
            "(ds.status <> 'Draft' OR ds.submitter_id = $"@,
            ")"@,
            ParamView::Number(f.viewer_id as int),
            f.params_to_viewer(),
            k4,
        );
    }
    if queue_sql::binds_status(text::opt_text(f.status)) {
        lemma_binds(
            f,
            "ds.status::text = $"@,
            none,
            ParamView::Text(f.status->0@),
            f.params_to_status(),
            k6,
        );
    }
    if queue_sql::given(text::opt_text(f.system)) {
        lemma_binds(
            f,
            SUBMISSION_LIST_SYSTEM_CODE_SQL@ + " = $"@,
            none,
            ParamView::Text(f.system->0@),
            f.params_to_system(),
            k8,
        );
    }
    if queue_sql::given(text::opt_text(f.submitter)) {
        lemma_binds(
            f,
            "LOWER(u.username) = LOWER($"@,
            ")"@,
            ParamView::Text(f.submitter->0@),
            f.params_to_submitter(),
            k9,
        );
    }
}

/// A value is bound under a number.
#[verifier::opaque]
spec fn is_bound(f: SubmissionFilter, n: nat, v: ParamView) -> bool {
    0 < n <= f.params().len() && f.params()[n - 1] == v
}

proof fn lemma_bound(f: SubmissionFilter)
    ensures
        f.user_id matches Some(id) ==> is_bound(f, f.params_to_user(), ParamView::Number(id as int)),
        f.disc_id matches Some(id) ==> is_bound(f, f.params_to_disc(), ParamView::Number(id as int)),
        !f.can_view_all_drafts ==> is_bound(
            f,
            f.params_to_viewer(),
            ParamView::Number(f.viewer_id as int),
        ),
        queue_sql::binds_status(text::opt_text(f.status)) ==> is_bound(
            f,
            f.params_to_status(),
            ParamView::Text(f.status->0@),
        ),
        queue_sql::given(text::opt_text(f.system)) ==> is_bound(
            f,
            f.params_to_system(),
            ParamView::Text(f.system->0@),
        ),
        queue_sql::given(text::opt_text(f.submitter)) ==> is_bound(
            f,
            f.params_to_submitter(),
            ParamView::Text(f.submitter->0@),
        ),
{
    queue_sql::law_parameters_line_up(f);
    reveal(is_bound);
}

/// A condition stands at a place.
#[verifier::opaque]
spec fn stands(c: Seq<Seq<char>>, k: int, x: Seq<char>) -> bool {
    0 <= k < c.len() && c[k] == x
}

proof fn lemma_binds(
    f: SubmissionFilter,
    head: Seq<char>,
    tail: Seq<char>,
    v: ParamView,
    n: nat,
    k: int,
)
    requires
        is_bound(f, n, v),
        stands(f.conditions(), k, head + numbers::nat_text(n) + tail) || (tail.len() == 0 && stands(
            f.conditions(),
            k,
            head + numbers::nat_text(n),
        )),
    ensures
        binds(f, head, tail, v),
{
    reveal(binds);
    reveal(is_bound);
    reveal(stands);
    if tail.len() == 0 {
        assert(head + numbers::nat_text(n) + tail =~= head + numbers::nat_text(n));
    }
    let t = head + numbers::nat_text(n) + tail;
    assert(stands(f.conditions(), k, t));
    assert(f.conditions().contains(t));
}

proof fn lemma_item(a: Seq<Seq<char>>, wanted: bool, x: Seq<char>)
    ensures
        (a + queue_sql::opt_item(wanted, x)).len() == a.len() + queue_sql::one_if(wanted),
        wanted ==> stands(a + queue_sql::opt_item(wanted, x), a.len() as int, x),
        forall|k: int, y: Seq<char>| #[trigger]
            stands(a, k, y) ==> stands(a + queue_sql::opt_item(wanted, x), k, y),
{
    reveal(stands);
}

/// Where the conditions of a filter stand.
proof fn lemma_places(f: SubmissionFilter)
    ensures
        ({
            let c = f.conditions();
            let k1: int = 1;
            let k2 = k1 + queue_sql::one_if(f.user_id is Some);
            let k3 = k2 + queue_sql::one_if(f.disc_id is Some);
            let k4 = k3 + queue_sql::one_if(f.public_statuses_only);
            let k6 = k4 + queue_sql::one_if(!f.can_view_all_drafts) + queue_sql::one_if(f.hide_disabled_targets);
            let k8 = k6 + queue_sql::one_if(queue_sql::given(text::opt_text(f.status))) + queue_sql::one_if(
                queue_sql::type_condition(text::opt_text(f.type_filter)) is Some,
            );
            let k9 = k8 + queue_sql::one_if(queue_sql::given(text::opt_text(f.system)));
            &&& f.user_id is Some ==> stands(
                c,
                k1,
                "ds.submitter_id = $"@ + numbers::nat_text(f.params_to_user()),
            )
            &&& f.disc_id is Some ==> stands(
                c,
                k2,
                "ds.target_disc_id = $"@ + numbers::nat_text(f.params_to_disc()),
            )
            &&& f.public_statuses_only ==> stands(c, k3, "ds.status IN ('Approved', 'Legacy')"@)
            &&& !f.can_view_all_drafts ==> stands(
                c,
                k4,
                "(ds.status <> 'Draft' OR ds.submitter_id = $"@ + numbers::nat_text(f.params_to_viewer())
                    + ")"@,
            )
            &&& queue_sql::binds_status(text::opt_text(f.status)) ==> stands(
                c,
                k6,
                "ds.status::text = $"@ + numbers::nat_text(f.params_to_status()),
            )
            &&& queue_sql::given(text::opt_text(f.system)) ==> stands(
                c,
                k8,
                SUBMISSION_LIST_SYSTEM_CODE_SQL@ + " = $"@ + numbers::nat_text(f.params_to_system()),
            )
            &&& queue_sql::given(text::opt_text(f.submitter)) ==> stands(
                c,
                k9,
                "LOWER(u.username) = LOWER($"@ + numbers::nat_text(f.params_to_submitter()) + ")"@,
            )
        }),
        f.public_statuses_only ==> f.conditions().contains("ds.status IN ('Approved', 'Legacy')"@),
{
    let x1 = "ds.submitter_id = $"@ + numbers::nat_text(f.params_to_user());
    let x2 = "ds.target_disc_id = $"@ + numbers::nat_text(f.params_to_disc());
    let x3 = "ds.status IN ('Approved', 'Legacy')"@;
    let x4 = "(ds.status <> 'Draft' OR ds.submitter_id = $"@ + numbers::nat_text(f.params_to_viewer()) + ")"@;
    let x5 = f.target_condition();
    let x6 = f.status_condition();
    let x7 = queue_sql::type_condition(text::opt_text(f.type_filter))->0;
    let x8 = SUBMISSION_LIST_SYSTEM_CODE_SQL@ + " = $"@ + numbers::nat_text(f.params_to_system());
    let x9 = "LOWER(u.username) = LOWER($"@ + numbers::nat_text(f.params_to_submitter()) + ")"@;
    let w7 = queue_sql::type_condition(text::opt_text(f.type_filter)) is Some;
    let c0 = seq!["1=1"@];
    let c1 = c0 + queue_sql::opt_item(f.user_id is Some, x1);
    let c2 = c1 + queue_sql::opt_item(f.disc_id is Some, x2);
    let c3 = c2 + queue_sql::opt_item(f.public_statuses_only, x3);
    let c4 = c3 + queue_sql::opt_item(!f.can_view_all_drafts, x4);
    let c5 = c4 + queue_sql::opt_item(f.hide_disabled_targets, x5);
    let c6 = c5 + queue_sql::opt_item(queue_sql::given(text::opt_text(f.status)), x6);
    let c7 = c6 + queue_sql::opt_item(w7, x7);
    let c8 = c7 + queue_sql::opt_item(queue_sql::given(text::opt_text(f.system)), x8);
    lemma_item(c0, f.user_id is Some, x1);
    lemma_item(c1, f.disc_id is Some, x2);
    lemma_item(c2, f.public_statuses_only, x3);
    lemma_item(c3, !f.can_view_all_drafts, x4);
    lemma_item(c4, f.hide_disabled_targets, x5);
    lemma_item(c5, queue_sql::given(text::opt_text(f.status)), x6);
    lemma_item(c6, w7, x7);
    lemma_item(c7, queue_sql::given(text::opt_text(f.system)), x8);
    lemma_item(c8, queue_sql::given(text::opt_text(f.submitter)), x9);
    if f.public_statuses_only {
        assert(stands(f.conditions(), c2.len() as int, x3));
        reveal(stands);
        assert(f.conditions().contains(x3));
    }
}

// ── Order ──────────────────────────────────────────────────────────────────

/// A click on another column sorts by it upwards; the two orders of a column differ.
pub proof fn law_clicks_and_orders(column: ColumnView, order: Seq<char>, clicked: ColumnView)
    ensures
        column != clicked ==> queue::order_after_click(column, order, clicked) == "asc"@,
        text::ends_with(
            queue_sql::order_sql(column, "asc"@),
            if column == ColumnView::DiscId {
                " ASC NULLS LAST"@
            } else {
                " ASC"@
            },
        ),
        text::ends_with(
            queue_sql::order_sql(column, "desc"@),
            if column == ColumnView::DiscId {
                " DESC NULLS LAST"@
            } else {
                " DESC"@
            },
        ),
        text::starts_with(queue_sql::order_sql(column, order), queue_sql::sort_column_sql(column)),
{
    reveal_strlit("asc");
    reveal_strlit("desc");
    reveal_strlit(" ASC");
    reveal_strlit(" DESC");
    reveal_strlit(" NULLS LAST");
    reveal_strlit(" ASC NULLS LAST");
    reveal_strlit(" DESC NULLS LAST");
    assert("asc"@.len() == 3 && "desc"@.len() == 4);
    let s = queue_sql::sort_column_sql(column);
    let up = queue_sql::order_sql(column, "asc"@);
    let down = queue_sql::order_sql(column, "desc"@);
    let any = queue_sql::order_sql(column, order);
    assert(any.take(s.len() as int) =~= s);
    assert(" ASC NULLS LAST"@ =~= " ASC"@ + " NULLS LAST"@);
    assert(" DESC NULLS LAST"@ =~= " DESC"@ + " NULLS LAST"@);
    if column == ColumnView::DiscId {
        assert(up =~= s + " ASC NULLS LAST"@);
        assert(down =~= s + " DESC NULLS LAST"@);
        assert(up.skip(up.len() - 15) =~= " ASC NULLS LAST"@);
        assert(down.skip(down.len() - 16) =~= " DESC NULLS LAST"@);
    } else {
        assert(up =~= s + " ASC"@);
        assert(down =~= s + " DESC"@);
        assert(up.skip(up.len() - 4) =~= " ASC"@);
        assert(down.skip(down.len() - 5) =~= " DESC"@);
    }
}

/// A page of the list begins where the one before ends: the first at the beginning, each
/// other one page later.
pub proof fn law_pages_follow_each_other(
    f: SubmissionFilter,
    column: ColumnView,
    order: Seq<char>,
    page: int,
    size: int,
)
    ensures
        text::ends_with(
            queue_sql::list_sql(f, column, order, 1, size),
            "LIMIT "@ + numbers::int_text(size) + " OFFSET "@ + numbers::int_text(0),
        ),
        text::ends_with(
            queue_sql::list_sql(f, column, order, page + 1, size),
            "LIMIT "@ + numbers::int_text(size) + " OFFSET "@ + numbers::int_text(page * size),
        ),
{
    lemma_page_end(f, column, order, 1, size);
    lemma_page_end(f, column, order, page + 1, size);
    assert((1int - 1) * size == 0) by (nonlinear_arith);
    assert((page + 1 - 1) * size == page * size) by (nonlinear_arith);
}

proof fn lemma_page_end(
    f: SubmissionFilter,
    column: ColumnView,
    order: Seq<char>,
    page: int,
    size: int,
)
    ensures
        text::ends_with(
            queue_sql::list_sql(f, column, order, page, size),
            "LIMIT "@ + numbers::int_text(size) + " OFFSET "@ + numbers::int_text((page - 1) * size),
        ),
{
    reveal_strlit("
         LIMIT ");
    reveal_strlit("LIMIT ");
    let all = queue_sql::list_sql(f, column, order, page, size);
    let l = "
         LIMIT "@;
    let e = "LIMIT "@ + numbers::int_text(size) + " OFFSET "@ + numbers::int_text((page - 1) * size);
    let w = l + numbers::int_text(size) + " OFFSET "@ + numbers::int_text((page - 1) * size);
    assert(l.skip(10) =~= "LIMIT "@);
    assert(w.skip(10) =~= e);
    let n = all.len() - w.len();
    assert(all.skip(n) =~= w);
    assert(all.skip(n + 10) =~= e);
}

// ── Addresses ──────────────────────────────────────────────────────────────

/// The bytes that a text in an address stands for.
pub open spec fn percent_decoded(s: Seq<char>) -> Seq<u8>
    decreases s.len(),
{
    if s.len() == 0 {
        Seq::empty()
    } else if s[0] == '%' && s.len() >= 3 {
        seq![hex_dump::hex_pair(s[1], s[2])] + percent_decoded(s.skip(3))
    } else {
        seq![s[0] as u8] + percent_decoded(s.skip(1))
    }
}

spec fn encoded_byte(b: u8) -> Seq<char> {
    if queue::is_unreserved(b) {
        seq![b as char]
    } else {
        seq!['%'] + dump_text::byte_text(b, true)
    }
}

proof fn lemma_encoded_front(b: u8, t: Seq<u8>)
    ensures
        queue::percent_encoded(seq![b] + t) == encoded_byte(b) + queue::percent_encoded(t),
    decreases t.len(),
{
    let all = seq![b] + t;
    if t.len() == 0 {
        assert(all.drop_last() =~= Seq::<u8>::empty());
        assert(all.last() == b);
        assert(t =~= Seq::<u8>::empty());
        assert(queue::percent_encoded(all) =~= encoded_byte(b) + queue::percent_encoded(t));
    } else {
        lemma_encoded_front(b, t.drop_last());
        assert(all.drop_last() =~= seq![b] + t.drop_last());
        assert(all.last() == t.last());
        assert(queue::percent_encoded(all) =~= encoded_byte(b) + queue::percent_encoded(t));
    }
}

/// A text in an address stands for the bytes that were written.
pub proof fn law_addresses_read_back(bytes: Seq<u8>)
    ensures
        percent_decoded(queue::percent_encoded(bytes)) == bytes,
    decreases bytes.len(),
{
    if bytes.len() == 0 {
        assert(percent_decoded(queue::percent_encoded(bytes)) =~= bytes);
    } else {
        let b = bytes[0];
        let t = bytes.skip(1);
        law_addresses_read_back(t);
        assert(bytes =~= seq![b] + t);
        lemma_encoded_front(b, t);
        let e = encoded_byte(b);
        let all = queue::percent_encoded(bytes);
        assert(all.skip(e.len() as int) =~= queue::percent_encoded(t));
        assert(all[0] == e[0]);
        if queue::is_unreserved(b) {
            let c = b as char;
            assert(c != '%');
            assert(c as u8 == b);
        } else {
            dump_text::lemma_byte_text(b, true);
            assert(all[1] == e[1] && all[2] == e[2]);
            assert(e[1] == dump_text::byte_text(b, true)[0] && e[2] == dump_text::byte_text(b, true)[1]);
        }
        assert(percent_decoded(all) =~= seq![b] + percent_decoded(queue::percent_encoded(t)));
    }
}

/// The page of a form with errors keeps what the moderator wrote, and shows every error and
/// every disc that stands in the way, with or without a target to compare with.
pub proof fn law_repeated_reviews_keep_what_was_entered(
    t: crate::routes::disc_edit::TemplateView,
    errors: Seq<Seq<char>>,
    linked: Seq<crate::services::approval::ConflictView>,
    comment: Seq<char>,
    diff: Option<(JsonView, JsonView)>,
    ref_data: crate::routes::disc_edit::EditRefData,
)
    ensures
        ({
            let p = queue::repeated_review_view(t, errors, linked, comment, diff, ref_data);
            &&& p.validation_errors == errors
            &&& p.linked_validation_errors == linked
            &&& p.review_comment_input == comment
            &&& p.title == t.title
            &&& p.comments == t.comments
            &&& p.submission_id == t.submission_id
        }),
{
    reveal(crate::routes::review_diff::with_notes);
}

/// The page of the queue of one disc is its history, under its number; the others are the queue.
pub proof fn law_titles_of_the_queue(id: i32)
    ensures
        text::ends_with(queue::queue_title(Some(id)), numbers::int_text(id as int)),
        text::starts_with(queue::queue_title(Some(id)), "History"@),
        queue::queue_title(None) == "Queue"@,
{
    reveal_strlit("History: Disc #");
    reveal_strlit("History");
    let q = queue::queue_title(Some(id));
    let n = numbers::int_text(id as int);
    assert(q.skip(q.len() - n.len()) =~= n);
    assert(q.take("History"@.len() as int) =~= "History"@);
}

/// A system is called in the filter of the queue as elsewhere.
pub proof fn law_systems_have_one_name(s: System)
    ensures
        queue::joined_name(s.manufacturer@, s.name@) == s.full_name(),
{
}

} // verus!
