//! How approvals, archives, exports and news come out.

use vstd::prelude::*;

use crate::clock::{self, Moment};
use crate::json::JsonView;
use crate::models::{DiscStatus, DiscSubmission, SubmissionStatus, SubmissionType, System};
use crate::naming;
use crate::services::approval::{self, ApprovalWrite, ConflictView, OutcomeView};
use crate::services::approval_run::{self, ApprovalAction, EventView, ResolvedView, StateView};
use crate::services::archive_service::{self, ArchiveDisc};
use crate::services::cache;
use crate::services::database_export_service;
use crate::text;

verus! {

// ── Approvals ──────────────────────────────────────────────────────────────

/// An approval that finds everything as it should be writes the disc and ends approved: with
/// the submission as it was seen, a target that can take the changes, no conflict, and a
/// claim, it writes, marks the archives of the systems before and after, and commits.
pub proof fn law_good_approvals_succeed(
    sub: DiscSubmission,
    changes: JsonView,
    expected_hash: Option<Seq<char>>,
    target: Option<(JsonView, DiscStatus)>,
    before: Option<Seq<char>>,
    after: Option<Seq<char>>,
    n: u64,
    id: i32,
)
    requires
        n > 0,
        !approval_run::target_is_stale(expected_hash, target),
        approval::approval_of(
            sub,
            match target {
                Some(t) => t.0,
                None => JsonView::Obj(Seq::empty()),
            },
            match target {
                Some(t) => Some(t.1),
                None => None,
            },
            changes,
        ) is Ok,
    ensures
        ({
            let e1 = seq![
                EventView::Submission(Some((SubmissionStatus::Pending, sub.target_disc_id))),
            ];
            let e2 = e1.push(EventView::Target(target));
            let e3 = e2.push(EventView::Conflicts(Seq::empty()));
            let e4 = e3.push(EventView::System(before));
            let e5 = e4.push(EventView::Claim(n));
            let e6 = e5.push(EventView::Written(id));
            let e7 = e6.push(EventView::System(after));
            let e8 = e7.push(EventView::Marked);
            let at = |e: Seq<EventView>| approval_run::reached(sub, changes, expected_hash, e);
            &&& approval_run::action_of(sub, at(Seq::empty())) is ReadSubmission
            &&& approval_run::action_of(sub, at(e1)) == ApprovalAction::ReadTarget(sub.target_disc_id)
            &&& approval_run::action_of(sub, at(e2)) is SearchConflicts
            &&& approval_run::action_of(sub, at(e3)) == ApprovalAction::ReadSystem(sub.target_disc_id)
            &&& approval_run::action_of(sub, at(e4)) is Claim
            &&& approval_run::action_of(sub, at(e5)) is Write
            &&& approval_run::action_of(sub, at(e6)) == ApprovalAction::ReadSystem(Some(id))
            &&& at(e7) == StateView::Dirty(id, approval::stale_systems(before, after))
            &&& approval_run::action_of(sub, at(e7)) is MarkArchives
            &&& at(e8) == StateView::Done(OutcomeView::Approved(id))
            &&& approval_run::action_of(sub, at(e8)) is Commit
        }),
{
    let e0 = Seq::<EventView>::empty();
    let x1 = EventView::Submission(Some((SubmissionStatus::Pending, sub.target_disc_id)));
    let e1 = seq![x1];
    let e2 = e1.push(EventView::Target(target));
    let e3 = e2.push(EventView::Conflicts(Seq::empty()));
    let e4 = e3.push(EventView::System(before));
    let e5 = e4.push(EventView::Claim(n));
    let e6 = e5.push(EventView::Written(id));
    let e7 = e6.push(EventView::System(after));
    let e8 = e7.push(EventView::Marked);
    assert(e1.drop_last() =~= e0);
    assert(e2.drop_last() =~= e1);
    assert(e3.drop_last() =~= e2);
    assert(e4.drop_last() =~= e3);
    assert(e5.drop_last() =~= e4);
    assert(e6.drop_last() =~= e5);
    assert(e7.drop_last() =~= e6);
    assert(e8.drop_last() =~= e7);
    assert(e1.last() == x1);
    assert(approval_run::reached(sub, changes, expected_hash, e0) == StateView::Begun);
    assert(approval_run::reached(sub, changes, expected_hash, e1) == StateView::Current);
    assert(approval_run::reached(sub, changes, expected_hash, e2) is Resolved);
    assert(approval_run::reached(sub, changes, expected_hash, e3) is Clear);
    assert(approval_run::reached(sub, changes, expected_hash, e4) is Known);
    assert(approval_run::reached(sub, changes, expected_hash, e5) is Claimed);
    assert(approval_run::reached(sub, changes, expected_hash, e6) == StateView::Written(id, before));
    assert(approval_run::reached(sub, changes, expected_hash, e7) == StateView::Dirty(
        id,
        approval::stale_systems(before, after),
    ));
}

/// What stands in the way of an approval is how it ends: a submission that is not pending, or
/// has another target, or that nobody could claim, was processed already; a target that
/// changed is stale; and conflicts are reported as they were found.
pub proof fn law_what_ends_an_approval(
    sub: DiscSubmission,
    changes: JsonView,
    expected_hash: Option<Seq<char>>,
    r: ResolvedView,
    status: SubmissionStatus,
    target: Option<i32>,
    found: Option<(JsonView, DiscStatus)>,
    cs: Seq<ConflictView>,
    system: Option<Seq<char>>,
)
    ensures
        status != SubmissionStatus::Pending || target != sub.target_disc_id ==> approval_run::advanced(
            sub,
            changes,
            expected_hash,
            StateView::Begun,
            EventView::Submission(Some((status, target))),
        ) == StateView::Done(OutcomeView::AlreadyProcessed),
        approval_run::advanced(sub, changes, expected_hash, StateView::Begun, EventView::Submission(None))
            == StateView::Done(OutcomeView::AlreadyProcessed),
        approval_run::target_is_stale(expected_hash, found) ==> approval_run::advanced(
            sub,
            changes,
            expected_hash,
            StateView::Current,
            EventView::Target(found),
        ) == StateView::Done(OutcomeView::StaleDiscState),
        cs.len() > 0 ==> approval_run::advanced(
            sub,
            changes,
            expected_hash,
            StateView::Resolved(r),
            EventView::Conflicts(cs),
        ) == StateView::Done(OutcomeView::Conflicts(cs)),
        approval_run::advanced(
            sub,
            changes,
            expected_hash,
            StateView::Known(r, system),
            EventView::Claim(0),
        ) == StateView::Done(OutcomeView::AlreadyProcessed),
        approval_run::action_of(sub, StateView::Done(OutcomeView::AlreadyProcessed)) is RollBack,
        approval_run::action_of(sub, StateView::Done(OutcomeView::StaleDiscState)) is RollBack,
        approval_run::action_of(sub, StateView::Done(OutcomeView::Conflicts(cs))) is RollBack,
{
}

/// An approval without a target makes a disc; one with a target changes that disc, and a
/// submission of the disc adds who dumped it, an edit does not.
pub proof fn law_what_an_approval_writes(sub: DiscSubmission)
    ensures
        sub.target_disc_id is None <==> approval_run::write_of(sub) is Create,
        sub.target_disc_id matches Some(id) ==> (approval_run::write_of(sub) matches ApprovalWrite::Update {
            disc_id,
            add_dumper,
        } && disc_id == id && (add_dumper <==> sub.submission_type == SubmissionType::Disc)),
{
}

// ── Archives ───────────────────────────────────────────────────────────────

/// Every system has a DAT; cuesheets, keys and subchannels have those that use them, and
/// there is no other type.
pub proof fn law_types_of_archives(sys: System, has_cue_media: bool, t: Seq<char>)
    ensures
        archive_service::archive_types(sys, has_cue_media).contains(t) <==> t == "dat"@ || (t == "cue"@
            && has_cue_media) || (t == "key"@ && sys.has_key) || (t == "sbi"@ && sys.has_sbi),
{
    let v = archive_service::archive_types(sys, has_cue_media);
    assert(v[0] == "dat"@);
    let c: int = 1;
    let k = c + if has_cue_media {
        1int
    } else {
        0
    };
    let s = k + if sys.has_key {
        1int
    } else {
        0
    };
    if has_cue_media {
        assert(v[c] == "cue"@);
    }
    if sys.has_key {
        assert(v[k] == "key"@);
    }
    if sys.has_sbi {
        assert(v[s] == "sbi"@);
    }
}

/// An archive of discs has a file for each: called like the disc, with the extension, and with
/// what is stored of it.
pub proof fn law_archives_hold_their_discs(v: Seq<ArchiveDisc>, ext: Seq<char>, i: int)
    requires
        0 <= i < v.len(),
    ensures
        archive_service::disc_files(v, ext).len() == v.len(),
        archive_service::disc_files(v, ext)[i].1 == v[i].content@,
        text::starts_with(archive_service::disc_files(v, ext)[i].0, v[i].title@),
        text::ends_with(archive_service::disc_files(v, ext)[i].0, ext),
{
    let d = v[i];
    let f = archive_service::disc_files(v, ext)[i].0;
    let base = naming::rom_base_name(
        d.title@,
        text::texts(d.region_names@),
        text::texts(d.language_codes@),
        text::opt_text(d.disc_number),
        text::opt_text(d.disc_title),
        text::opt_text(d.filename_suffix),
    );
    assert(f == base + ext);
    assert(f.take(d.title@.len() as int) =~= d.title@);
    assert(f.skip(f.len() - ext.len()) =~= ext);
}

/// The host of an address is what stands between the scheme and the path, without `www.`.
pub proof fn law_host_of_an_address(scheme: Seq<char>, host: Seq<char>, path: Seq<char>)
    requires
        forall|i: int| 0 <= i < scheme.len() ==> #[trigger] scheme[i] != ':',
        forall|i: int| 0 <= i < host.len() ==> #[trigger] host[i] != '/',
        path.len() > 0 ==> path[0] == '/',
    ensures
        archive_service::host_of(scheme + "://"@ + host + path) == (if text::starts_with(host, "www."@) {
            host.skip(4)
        } else {
            host
        }),
{
    reveal_strlit("://");
    let url = scheme + "://"@ + host + path;
    let n = scheme.len() as int;
    text::lemma_find_from(url, "://"@, 0);
    assert(url.subrange(n, n + 3) =~= "://"@);
    assert(text::stands_at(url, "://"@, n));
    let p = text::find(url, "://"@)->0;
    if p < n {
        assert(url.subrange(p, p + 3)[0] == url[p]);
        assert(url[p] == scheme[p]);
    }
    let rest = url.skip(n + 3);
    assert(rest =~= host + path);
    text::lemma_index_from(rest, '/', 0);
    let e = text::index_from(rest, '/', 0);
    if e < host.len() {
        assert(rest[e] == host[e]);
    }
    if path.len() > 0 {
        assert(rest[host.len() as int] == path[0]);
    }
    assert(rest.take(e) =~= host);
}

// ── Exports ────────────────────────────────────────────────────────────────

/// The name of an export tells when it was made: the stamp that it was given is read back.
pub proof fn law_export_names_read_back(seconds: int)
    ensures
        database_export_service::export_moment(database_export_service::export_name(seconds)) == clock::moment_of(
            clock::stamp_moment(clock::time_text(seconds, crate::clock::STAMP@)),
        ),
{
    let p = crate::services::database_export_service::EXPORT_PREFIX@;
    let t = clock::time_text(seconds, crate::clock::STAMP@);
    let s = crate::services::database_export_service::EXPORT_SUFFIX@;
    let name = database_export_service::export_name(seconds);
    assert(name.take(p.len() as int) =~= p);
    let rest = name.skip(p.len() as int);
    assert(rest =~= t + s);
    assert(rest.skip(rest.len() - s.len()) =~= s);
    assert(name.subrange(p.len() as int, name.len() - s.len()) =~= t);
}

/// An export is made where there was none yet, where it is asked for, and on a later day than
/// the last once the hour has come; it waits for the hour.
pub proof fn law_when_an_export_is_due(now: Moment, made: Moment)
    ensures
        database_export_service::is_due(now, None, false),
        database_export_service::is_due(now, Some(made), true),
        clock::hour_of(now) < 7 ==> !database_export_service::is_due(now, Some(made), false),
        clock::hour_of(now) >= 7 && clock::day_of(made) < clock::day_of(now) ==> database_export_service::is_due(now, Some(made), false),
        clock::day_of(now) <= clock::day_of(made) ==> !database_export_service::is_due(now, Some(made), false),
{
}

// ── Values that are kept for a while ───────────────────────────────────────

/// A value is used again for as long as it is to be kept, and not after that.
pub proof fn law_values_are_kept_for_a_while(t: u64, now: u64, ttl: u64)
    ensures
        now >= t ==> (cache::fresh(Some(t), now, ttl) <==> now < t + ttl),
        !cache::fresh(None, now, ttl),
{
}

} // verus!
