//! The way of an approval, from one piece of work to the next.

use vstd::prelude::*;

use crate::error::{AppError, ErrorView};
use crate::json::{Json, JsonView};
use crate::models::{DiscStatus, DiscSubmission, SubmissionStatus, SubmissionType, System};
use crate::services::approval::{
    self, ApprovalConflict, ApprovalOutcome, ApprovalStart, ApprovalWrite, ConflictView,
    OutcomeView, approval_write, begin_approval, claim_outcome, conflict_outcome, dirty_systems,
    submission_is_current,
};
use crate::services::resolution::ApprovalResolution;
use crate::services::snapshot_hash;
use crate::text;

verus! {

/// What an approval applies.
#[verifier::ext_equal]
pub struct ResolvedView {
    pub changes: JsonView,
    pub effective_data: JsonView,
    pub target_status: Option<DiscStatus>,
}

/// What an approval applies.
pub open spec fn resolved_view(r: ApprovalResolution) -> ResolvedView {
    ResolvedView {
        changes: r.changes@,
        effective_data: r.effective_data@,
        target_status: r.target_status,
    }
}

/// How far an approval has come.
pub enum ApprovalState {
    /// Nothing is known.
    Begun,
    /// The submission is as its moderator saw it.
    Current,
    /// The changes are resolved against the target.
    Resolved(ApprovalResolution),
    /// No disc stands in the way.
    Clear(ApprovalResolution),
    /// The system of the target is known.
    Known(ApprovalResolution, Option<String>),
    /// The submission is claimed.
    Claimed(ApprovalResolution, Option<String>),
    /// The disc is written.
    Written(i32, Option<String>),
    /// The systems whose archives are out of date are known.
    Dirty(i32, Vec<String>),
    /// The approval has an outcome.
    Done(ApprovalOutcome),
    /// The approval was refused.
    Failed(AppError),
}

/// How far an approval has come.
pub enum StateView {
    Begun,
    Current,
    Resolved(ResolvedView),
    Clear(ResolvedView),
    Known(ResolvedView, Option<Seq<char>>),
    Claimed(ResolvedView, Option<Seq<char>>),
    Written(i32, Option<Seq<char>>),
    Dirty(i32, Seq<Seq<char>>),
    Done(OutcomeView),
    Failed(ErrorView),
}

impl View for ApprovalState {
    type V = StateView;

    open spec fn view(&self) -> StateView {
        match *self {
            ApprovalState::Begun => StateView::Begun,
            ApprovalState::Current => StateView::Current,
            ApprovalState::Resolved(r) => StateView::Resolved(resolved_view(r)),
            ApprovalState::Clear(r) => StateView::Clear(resolved_view(r)),
            ApprovalState::Known(r, s) => StateView::Known(resolved_view(r), text::opt_text(s)),
            ApprovalState::Claimed(r, s) => StateView::Claimed(resolved_view(r), text::opt_text(s)),
            ApprovalState::Written(id, s) => StateView::Written(id, text::opt_text(s)),
            ApprovalState::Dirty(id, v) => StateView::Dirty(id, text::texts(v@)),
            ApprovalState::Done(o) => StateView::Done(o@),
            ApprovalState::Failed(e) => StateView::Failed(e@),
        }
    }
}

/// What a piece of work found.
pub enum ApprovalEvent {
    /// The status and the target of the stored submission, if it is there.
    Submission(Option<(SubmissionStatus, Option<i32>)>),
    /// The snapshot and the status of the target, if there is one.
    Target(Option<(Json, DiscStatus)>),
    /// The discs that stand in the way.
    Conflicts(Vec<ApprovalConflict>),
    /// The system of a disc, if it is there.
    System(Option<String>),
    /// How many rows were claimed.
    Claim(u64),
    /// The disc was written.
    Written(i32),
    /// The archives were marked.
    Marked,
}

/// What a piece of work found.
pub enum EventView {
    Submission(Option<(SubmissionStatus, Option<i32>)>),
    Target(Option<(JsonView, DiscStatus)>),
    Conflicts(Seq<ConflictView>),
    System(Option<Seq<char>>),
    Claim(u64),
    Written(i32),
    Marked,
}

impl View for ApprovalEvent {
    type V = EventView;

    open spec fn view(&self) -> EventView {
        match *self {
            ApprovalEvent::Submission(s) => EventView::Submission(s),
            ApprovalEvent::Target(t) => EventView::Target(
                match t {
                    Some(p) => Some((p.0@, p.1)),
                    None => None,
                },
            ),
            ApprovalEvent::Conflicts(c) => EventView::Conflicts(approval::conflict_views(c@)),
            ApprovalEvent::System(s) => EventView::System(text::opt_text(s)),
            ApprovalEvent::Claim(n) => EventView::Claim(n),
            ApprovalEvent::Written(id) => EventView::Written(id),
            ApprovalEvent::Marked => EventView::Marked,
        }
    }
}

/// A review that was begun on another state of the target.
pub open spec fn target_is_stale(
    expected_hash: Option<Seq<char>>,
    target: Option<(JsonView, DiscStatus)>,
) -> bool {
    match target {
        Some(t) => snapshot_hash::is_stale(expected_hash, snapshot_hash::snapshot_hash(t.0)),
        None => false,
    }
}

/// What the changes come to on the target that was read.
pub open spec fn after_target(
    sub: DiscSubmission,
    changes: JsonView,
    expected_hash: Option<Seq<char>>,
    target: Option<(JsonView, DiscStatus)>,
) -> StateView {
    let db = match target {
        Some(t) => t.0,
        None => JsonView::Obj(Seq::empty()),
    };
    let status = match target {
        Some(t) => Some(t.1),
        None => None,
    };
    if target_is_stale(expected_hash, target) {
        StateView::Done(OutcomeView::StaleDiscState)
    } else {
        match approval::approval_of(sub, db, status, changes) {
            Err(e) => StateView::Failed(e),
            Ok(p) => StateView::Resolved(
                ResolvedView { changes: p.0, effective_data: p.1, target_status: status },
            ),
        }
    }
}

/// How far an approval has come after a piece of work. Work that was not asked for
/// changes nothing.
pub open spec fn advanced(
    sub: DiscSubmission,
    changes: JsonView,
    expected_hash: Option<Seq<char>>,
    state: StateView,
    event: EventView,
) -> StateView {
    match (state, event) {
        (StateView::Begun, EventView::Submission(s)) => if s == Some(
            (SubmissionStatus::Pending, sub.target_disc_id),
        ) {
            StateView::Current
        } else {
            StateView::Done(OutcomeView::AlreadyProcessed)
        },
        (StateView::Current, EventView::Target(t)) => after_target(sub, changes, expected_hash, t),
        (StateView::Resolved(r), EventView::Conflicts(c)) => if c.len() > 0 {
            StateView::Done(OutcomeView::Conflicts(c))
        } else {
            StateView::Clear(r)
        },
        (StateView::Clear(r), EventView::System(s)) => StateView::Known(r, s),
        (StateView::Known(r, s), EventView::Claim(n)) => if n == 0 {
            StateView::Done(OutcomeView::AlreadyProcessed)
        } else {
            StateView::Claimed(r, s)
        },
        (StateView::Claimed(_, s), EventView::Written(id)) => StateView::Written(id, s),
        (StateView::Written(id, before), EventView::System(after)) => StateView::Dirty(
            id,
            approval::stale_systems(before, after),
        ),
        (StateView::Dirty(id, _), EventView::Marked) => StateView::Done(OutcomeView::Approved(id)),
        _ => state,
    }
}

/// How far an approval has come after a piece of work.
pub fn advance(
    sub: &DiscSubmission,
    changes: &Json,
    expected_review_base_hash: Option<&str>,
    state: ApprovalState,
    event: ApprovalEvent,
) -> (r: ApprovalState)
    requires
        event matches ApprovalEvent::Target(Some(t)) ==> approval::approval_applies(
            *sub,
            (t.0)@,
            Some(t.1),
            changes@,
        ),
    ensures
        r@ == advanced(*sub, changes@, text::opt_str(expected_review_base_hash), state@, event@),
{
    match (state, event) {
        (ApprovalState::Begun, ApprovalEvent::Submission(s)) => {
            if submission_is_current(s, sub.target_disc_id) {
                ApprovalState::Current
            } else {
                ApprovalState::Done(ApprovalOutcome::AlreadyProcessed)
            }
        },
        (ApprovalState::Current, ApprovalEvent::Target(t)) => {
            let now = Some((SubmissionStatus::Pending, sub.target_disc_id));
            match begin_approval(sub, changes, now, t, expected_review_base_hash) {
                Err(e) => ApprovalState::Failed(e),
                Ok(ApprovalStart::Stop(o)) => ApprovalState::Done(o),
                Ok(ApprovalStart::Resolved(a)) => ApprovalState::Resolved(a),
            }
        },
        (ApprovalState::Resolved(a), ApprovalEvent::Conflicts(c)) => {
            match conflict_outcome(c) {
                Some(o) => ApprovalState::Done(o),
                None => ApprovalState::Clear(a),
            }
        },
        (ApprovalState::Clear(a), ApprovalEvent::System(s)) => ApprovalState::Known(a, s),
        (ApprovalState::Known(a, s), ApprovalEvent::Claim(n)) => {
            match claim_outcome(n) {
                Some(o) => ApprovalState::Done(o),
                None => ApprovalState::Claimed(a, s),
            }
        },
        (ApprovalState::Claimed(_, s), ApprovalEvent::Written(id)) => ApprovalState::Written(id, s),
        (ApprovalState::Written(id, before), ApprovalEvent::System(after)) => {
            ApprovalState::Dirty(id, dirty_systems(before, after))
        },
        (ApprovalState::Dirty(id, _), ApprovalEvent::Marked) => {
            ApprovalState::Done(ApprovalOutcome::Approved(id))
        },
        (state, _) => state,
    }
}

/// What an approval needs next.
#[derive(Debug, PartialEq, Eq)]
pub enum ApprovalAction {
    /// Read the stored submission.
    ReadSubmission,
    /// Read the target, if there is one.
    ReadTarget(Option<i32>),
    /// Look for discs that stand in the way.
    SearchConflicts,
    /// Read the system of a disc, if there is one.
    ReadSystem(Option<i32>),
    /// Claim the submission.
    Claim,
    /// Write the disc.
    Write(ApprovalWrite),
    /// Mark the archives of the systems.
    MarkArchives,
    /// Keep everything.
    Commit,
    /// Undo everything.
    RollBack,
}

/// What an approval writes.
pub open spec fn write_of(sub: DiscSubmission) -> ApprovalWrite {
    match sub.target_disc_id {
        Some(id) => ApprovalWrite::Update {
            disc_id: id,
            add_dumper: sub.submission_type == SubmissionType::Disc,
        },
        None => ApprovalWrite::Create,
    }
}

/// What an approval needs next: it writes only what it has claimed, and keeps what it
/// wrote only if it approved.
pub open spec fn action_of(sub: DiscSubmission, state: StateView) -> ApprovalAction {
    match state {
        StateView::Begun => ApprovalAction::ReadSubmission,
        StateView::Current => ApprovalAction::ReadTarget(sub.target_disc_id),
        StateView::Resolved(_) => ApprovalAction::SearchConflicts,
        StateView::Clear(_) => ApprovalAction::ReadSystem(sub.target_disc_id),
        StateView::Known(_, _) => ApprovalAction::Claim,
        StateView::Claimed(_, _) => ApprovalAction::Write(write_of(sub)),
        StateView::Written(id, _) => ApprovalAction::ReadSystem(Some(id)),
        StateView::Dirty(_, _) => ApprovalAction::MarkArchives,
        StateView::Done(OutcomeView::Approved(_)) => ApprovalAction::Commit,
        StateView::Done(_) => ApprovalAction::RollBack,
        StateView::Failed(_) => ApprovalAction::RollBack,
    }
}

/// What an approval needs next.
pub fn next_action(sub: &DiscSubmission, state: &ApprovalState) -> (r: ApprovalAction)
    ensures
        r == action_of(*sub, state@),
{
    match state {
        ApprovalState::Begun => ApprovalAction::ReadSubmission,
        ApprovalState::Current => ApprovalAction::ReadTarget(sub.target_disc_id),
        ApprovalState::Resolved(_) => ApprovalAction::SearchConflicts,
        ApprovalState::Clear(_) => ApprovalAction::ReadSystem(sub.target_disc_id),
        ApprovalState::Known(_, _) => ApprovalAction::Claim,
        ApprovalState::Claimed(_, _) => ApprovalAction::Write(approval_write(sub)),
        ApprovalState::Written(id, _) => ApprovalAction::ReadSystem(Some(*id)),
        ApprovalState::Dirty(_, _) => ApprovalAction::MarkArchives,
        ApprovalState::Done(ApprovalOutcome::Approved(_)) => ApprovalAction::Commit,
        ApprovalState::Done(_) => ApprovalAction::RollBack,
        ApprovalState::Failed(_) => ApprovalAction::RollBack,
    }
}

// ── Whole approvals ────────────────────────────────────────────────────────

/// How far an approval has come after pieces of work, one after the other.
pub open spec fn reached(
    sub: DiscSubmission,
    changes: JsonView,
    expected_hash: Option<Seq<char>>,
    events: Seq<EventView>,
) -> StateView
    decreases events.len(),
{
    if events.len() == 0 {
        StateView::Begun
    } else {
        advanced(
            sub,
            changes,
            expected_hash,
            reached(sub, changes, expected_hash, events.drop_last()),
            events.last(),
        )
    }
}

/// The submission was found as its moderator saw it.
pub open spec fn found_current(sub: DiscSubmission, events: Seq<EventView>) -> bool {
    events.contains(EventView::Submission(Some((SubmissionStatus::Pending, sub.target_disc_id))))
}

/// The target was found as its moderator saw it.
pub open spec fn found_fresh(expected_hash: Option<Seq<char>>, events: Seq<EventView>) -> bool {
    exists|i: int|
        0 <= i < events.len() && (#[trigger] events[i] matches EventView::Target(t)
            && !target_is_stale(expected_hash, t))
}

/// No disc was found to stand in the way.
pub open spec fn found_clear(events: Seq<EventView>) -> bool {
    events.contains(EventView::Conflicts(Seq::empty()))
}

/// The submission was claimed.
pub open spec fn found_claimed(events: Seq<EventView>) -> bool {
    exists|i: int|
        0 <= i < events.len() && (#[trigger] events[i] matches EventView::Claim(n) && n > 0)
}

/// The checks that are behind an approval.
spec fn checks_passed(
    sub: DiscSubmission,
    expected_hash: Option<Seq<char>>,
    events: Seq<EventView>,
    state: StateView,
) -> bool {
    let written = state is Claimed || state is Written || state is Dirty || (state matches
        StateView::Done(o) && o is Approved);
    let clear = written || state is Clear || state is Known;
    let resolved = clear || state is Resolved;
    let current = resolved || state is Current;
    &&& current ==> found_current(sub, events)
    &&& resolved ==> found_fresh(expected_hash, events)
    &&& clear ==> found_clear(events)
    &&& written ==> found_claimed(events)
}

proof fn lemma_checks(
    sub: DiscSubmission,
    changes: JsonView,
    expected_hash: Option<Seq<char>>,
    events: Seq<EventView>,
)
    ensures
        checks_passed(
            sub,
            expected_hash,
            events,
            reached(sub, changes, expected_hash, events),
        ),
    decreases events.len(),
{
    if events.len() > 0 {
        let before = events.drop_last();
        let last = events.last();
        lemma_checks(sub, changes, expected_hash, before);
        assert(events[events.len() - 1] == last);
        assert forall|e: EventView| #[trigger] before.contains(e) implies events.contains(e) by {
            let i = choose|i: int| 0 <= i < before.len() && before[i] == e;
            assert(events[i] == e);
        }
        if found_fresh(expected_hash, before) {
            let i = choose|i: int|
                0 <= i < before.len() && (#[trigger] before[i] matches EventView::Target(t)
                    && !target_is_stale(expected_hash, t));
            assert(events[i] == before[i]);
        }
        if found_claimed(before) {
            let i = choose|i: int|
                0 <= i < before.len() && (#[trigger] before[i] matches EventView::Claim(n) && n
                    > 0);
            assert(events[i] == before[i]);
        }
        if let EventView::Conflicts(c) = last {
            if c.len() == 0 {
                assert(c =~= Seq::empty());
            }
        }
        assert(events.contains(last));
    }
}

/// A disc is written, and an approval is kept, only after the submission was found as its
/// moderator saw it, the target too, no disc in the way, and the submission was claimed.
pub proof fn law_approvals_pass_every_check(
    sub: DiscSubmission,
    changes: JsonView,
    expected_hash: Option<Seq<char>>,
    events: Seq<EventView>,
)
    ensures
        ({
            let action = action_of(sub, reached(sub, changes, expected_hash, events));
            action is Write || action is MarkArchives || action is Commit ==> {
                &&& found_current(sub, events)
                &&& found_fresh(expected_hash, events)
                &&& found_clear(events)
                &&& found_claimed(events)
            }
        }),
{
    lemma_checks(sub, changes, expected_hash, events);
}

/// An approval that came to its end stays there, whatever is found later.
pub proof fn law_ended_approvals_stay(
    sub: DiscSubmission,
    changes: JsonView,
    expected_hash: Option<Seq<char>>,
    state: StateView,
    event: EventView,
)
    requires
        state is Done || state is Failed,
    ensures
        advanced(sub, changes, expected_hash, state, event) == state,
{
}

} // verus!
