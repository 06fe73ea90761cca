//! Applying a plan to a filesystem.
//!
//! The filesystem itself is driven from outside: an [`OciApplyRun`] is told what
//! the layer's stream holds and says what is to be done next.

use vstd::prelude::*;
use crate::entry::{ArchivePath, EntryMetadata};
use crate::oci::digest::LayerDigests;
use crate::oci::layer::{is_verdict, verify_digests, DigestMismatch};
use crate::oci::plan::{is_root_entry, is_structural_skip, OciPlanOperation, OciReject};
use crate::oci::planner::OciLayerPlan;

verus! {

/// How a requested operation went.
#[derive(Clone, Copy, Debug, PartialEq, Eq, Structural)]
pub enum FilesystemFindingKind {
    /// It was done as requested.
    Applied,
    /// It was not tried.
    Refused,
    /// It was tried and not fully done.
    Failed,
}

/// The operation that a finding is about.
#[derive(Clone, Copy, Debug, PartialEq, Eq, Structural)]
pub enum FilesystemOperation {
    /// The entry itself.
    Entry,
    /// The removal of a path.
    Removal,
    /// A property of the entry.
    Property,
}

/// What is to be told about an operation.
#[derive(Debug)]
pub struct FilesystemFinding {
    pub path: ArchivePath,
    pub operation: FilesystemOperation,
    pub kind: FilesystemFindingKind,
    pub detail: String,
}

/// What became of an entry.
#[derive(Clone, Copy, Debug, PartialEq, Eq, Structural)]
pub enum FilesystemMaterialization {
    File,
    Hardlink,
    Directory,
    Symlink,
    Special,
    /// Something was there already.
    DestinationExists,
    Failed,
}

impl FilesystemFinding {
    /// An operation that was not tried.
    pub fn refused(path: ArchivePath, operation: FilesystemOperation, detail: &str) -> (finding:
        Self)
        ensures
            finding.path == path,
            finding.operation == operation,
            finding.kind == FilesystemFindingKind::Refused,
            finding.detail@ == detail@,
    {
        FilesystemFinding {
            path,
            operation,
            kind: FilesystemFindingKind::Refused,
            detail: detail.to_string(),
        }
    }
}

/// Which plans an applier still accepts.
#[derive(Clone, Copy, Debug, PartialEq, Eq, Structural)]
pub struct ApplierGuard {
    pub id: u64,
    pub applied: bool,
}

impl ApplierGuard {
    /// An applier that has not applied a plan.
    pub fn new(id: u64) -> (guard: Self)
        ensures
            guard == (ApplierGuard { id, applied: false }),
    {
        ApplierGuard { id, applied: false }
    }

    /// Accepts a plan of this applier, once.
    pub fn accept(&mut self, plan: &OciLayerPlan) -> (result: Result<(), &'static str>)
        ensures
            match result {
                Ok(()) => {
                    &&& plan.session_id == old(self).id
                    &&& !old(self).applied
                    &&& *final(self) == (ApplierGuard { id: old(self).id, applied: true })
                },
                Err(reason) => {
                    &&& *final(self) == *old(self)
                    &&& if plan.session_id != old(self).id {
                        reason@ == "OCI layer plan belongs to a different applier session"@
                    } else {
                        old(self).applied && reason@
                            == "OCI layer applier has already applied a plan"@
                    }
                },
            },
    {
        if plan.session_id != self.id {
            return Err("OCI layer plan belongs to a different applier session");
        }
        if self.applied {
            return Err("OCI layer applier has already applied a plan");
        }
        self.applied = true;
        Ok(())
    }
}

// ---------------------------------------------------------------------------
// Running a plan
// ---------------------------------------------------------------------------

/// What is done with an entry of the layer.
#[derive(Clone, Copy, Debug, PartialEq, Eq, Structural)]
pub enum Active {
    Materialize,
    Whiteout,
    Opaque,
    Reject,
    /// The root directory.
    Skip,
}

/// Where a run stands.
#[derive(Clone, Copy, Debug, PartialEq, Eq, Structural)]
pub enum Stage {
    /// Between entries.
    Between,
    /// In an entry.
    Open(Active),
    /// An entry has ended, and what its end asks for is not reported yet.
    Closing(Active),
    /// The stream has ended, and has left the entry of an operation open if
    /// `open` is set.
    Ended { open: bool },
    /// The run has failed.
    Failed,
}

/// What the stream of a layer holds next.
#[derive(Debug)]
pub enum LayerEvent<'a> {
    ArchiveMetadata,
    Entry(&'a EntryMetadata),
    Data,
    EndEntry,
    Done,
}

/// What is to be done next.
#[derive(Clone, Copy, Debug, PartialEq, Eq)]
pub enum ApplyAction {
    /// Nothing.
    Continue,
    /// Begin the entry of the current operation.
    BeginEntry,
    /// Write the data to the open entry.
    WriteData,
    /// End the open entry, then report with `entry_finished`.
    FinishEntry,
    /// Remove the destination of the current operation, then report with
    /// `removal_finished`.
    RemovePath,
    /// Clear the destination of the current operation, then report with
    /// `removal_finished`.
    ClearDirectory,
    /// End the session, then call `finish`.
    FinishSession,
    /// Give up, after the open entry was dropped if `abort` is set.
    Fail { abort: bool, reason: &'static str },
}

/// What is to be done next, with the text of the reason.
pub enum ActionView {
    Continue,
    BeginEntry,
    WriteData,
    FinishEntry,
    RemovePath,
    ClearDirectory,
    FinishSession,
    Fail { abort: bool, reason: Seq<char> },
}

impl View for ApplyAction {
    type V = ActionView;

    open spec fn view(&self) -> ActionView {
        match self {
            ApplyAction::Continue => ActionView::Continue,
            ApplyAction::BeginEntry => ActionView::BeginEntry,
            ApplyAction::WriteData => ActionView::WriteData,
            ApplyAction::FinishEntry => ActionView::FinishEntry,
            ApplyAction::RemovePath => ActionView::RemovePath,
            ApplyAction::ClearDirectory => ActionView::ClearDirectory,
            ApplyAction::FinishSession => ActionView::FinishSession,
            ApplyAction::Fail { abort, reason } => ActionView::Fail { abort: *abort, reason: reason@ },
        }
    }
}

/// How many entries came to which end.
#[derive(Clone, Copy, Debug, PartialEq, Eq, Structural)]
pub struct Counts {
    pub materialized: usize,
    pub removed: usize,
    pub cleared: usize,
    /// Refused by the plan.
    pub rejected: usize,
    /// To be created, but not created by the destination.
    pub unmade: usize,
}

impl Counts {
    /// All entries that came to an end.
    pub open spec fn total(self) -> int {
        self.materialized + self.removed + self.cleared + self.rejected + self.unmade
    }
}

/// The number of entries that some operations refuse.
pub open spec fn refusals(operations: Seq<OciPlanOperation>) -> nat
    decreases operations.len(),
{
    if operations.len() == 0 {
        0
    } else if operations.last() is Reject {
        refusals(operations.drop_last()) + 1
    } else {
        refusals(operations.drop_last())
    }
}

proof fn lemma_refusals(operations: Seq<OciPlanOperation>, count: int)
    requires
        0 <= count < operations.len(),
    ensures
        refusals(operations.take(count + 1)) == refusals(operations.take(count)) + if operations[count]
            is Reject {
            1nat
        } else {
            0nat
        },
{
    assert(operations.take(count + 1).drop_last() =~= operations.take(count));
    assert(operations.take(count + 1).last() == operations[count]);
}

/// What an operation makes of its entry.
pub open spec fn activity(operation: OciPlanOperation) -> Active {
    match operation {
        OciPlanOperation::Materialize(_) | OciPlanOperation::MapOwnership(_) => Active::Materialize,
        OciPlanOperation::Whiteout(_) => Active::Whiteout,
        OciPlanOperation::OpaqueDir(_) => Active::Opaque,
        OciPlanOperation::Reject(_) => Active::Reject,
    }
}

/// The finding that tells of a refused entry.
pub open spec fn tells_of(finding: FilesystemFinding, reject: OciReject) -> bool {
    &&& finding.path@ == reject.path@
    &&& finding.operation == FilesystemOperation::Entry
    &&& finding.kind == FilesystemFindingKind::Refused
    &&& finding.detail@ == reject.reason.words()
}

/// Where a run goes next and what is to be done, given its stage, the number of
/// operations that are used up, and what the stream holds.
pub open spec fn advanced(
    operations: Seq<OciPlanOperation>,
    stage: Stage,
    next: nat,
    event: LayerEvent,
) -> (Stage, nat, ActionView) {
    match event {
        LayerEvent::ArchiveMetadata => (stage, next, ActionView::Continue),
        LayerEvent::Entry(metadata) => if stage is Open {
            (
                Stage::Failed,
                next,
                ActionView::Fail {
                    abort: true,
                    reason: "layer entry began before the previous entry ended"@,
                },
            )
        } else if is_root_entry(metadata.kind, metadata.path.bytes@) {
            (Stage::Open(Active::Skip), next, ActionView::Continue)
        } else if next >= operations.len() {
            (
                Stage::Failed,
                next,
                ActionView::Fail {
                    abort: false,
                    reason: "layer stream produced more entries than the plan"@,
                },
            )
        } else {
            let active = activity(operations[next as int]);
            (
                Stage::Open(active),
                next + 1,
                if active == Active::Materialize {
                    ActionView::BeginEntry
                } else {
                    ActionView::Continue
                },
            )
        },
        LayerEvent::Data => (
            stage,
            next,
            if stage == Stage::Open(Active::Materialize) {
                ActionView::WriteData
            } else {
                ActionView::Continue
            },
        ),
        LayerEvent::EndEntry => match stage {
            Stage::Open(Active::Materialize) => (
                Stage::Closing(Active::Materialize),
                next,
                ActionView::FinishEntry,
            ),
            Stage::Open(Active::Whiteout) => (
                Stage::Closing(Active::Whiteout),
                next,
                ActionView::RemovePath,
            ),
            Stage::Open(Active::Opaque) => (
                Stage::Closing(Active::Opaque),
                next,
                ActionView::ClearDirectory,
            ),
            Stage::Open(_) => (Stage::Between, next, ActionView::Continue),
            _ => (
                Stage::Failed,
                next,
                ActionView::Fail {
                    abort: false,
                    reason: "layer ended an entry that was not open"@,
                },
            ),
        },
        LayerEvent::Done => if next < operations.len() {
            (
                Stage::Failed,
                next,
                ActionView::Fail {
                    abort: false,
                    reason: "plan has more operations than the layer stream"@,
                },
            )
        } else {
            (
                Stage::Ended { open: stage is Open && stage != Stage::Open(Active::Skip) },
                next,
                ActionView::FinishSession,
            )
        },
    }
}

/// A plan that is being applied.
#[derive(Debug)]
pub struct OciApplyRun {
    pub plan: OciLayerPlan,
    pub stage: Stage,
    pub next: usize,
    pub findings: Vec<FilesystemFinding>,
    pub counts: Counts,
}

/// A run of a plan that has just begun.
pub open spec fn has_begun(plan: OciLayerPlan, actual: LayerDigests, run: OciApplyRun) -> bool {
    &&& is_verdict(actual, plan.expected, Ok(()))
    &&& run.wf()
    &&& run.plan == plan
    &&& run.stage == Stage::Between
    &&& run.next == 0
    &&& run.findings@.len() == 0
    &&& run.counts == (Counts { materialized: 0, removed: 0, cleared: 0, rejected: 0, unmade: 0 })
}

/// How a run takes what the stream holds, and what is to be done then.
pub open spec fn takes(
    before: OciApplyRun,
    event: LayerEvent,
    after: OciApplyRun,
    action: ActionView,
) -> bool {
    &&& after.wf()
    &&& after.plan == before.plan
    &&& (after.stage, after.next as nat, action) == advanced(
        before.plan.operations@,
        before.stage,
        before.next as nat,
        event,
    )
    &&& if event is EndEntry && before.stage == Stage::Open(Active::Reject) {
        &&& after.counts == (Counts { rejected: after.counts.rejected, ..before.counts })
        &&& after.counts.rejected == before.counts.rejected + 1
        &&& after.findings@.len() == before.findings@.len() + 1
        &&& after.findings@.drop_last() == before.findings@
        &&& before.plan.operations@[before.next - 1] matches OciPlanOperation::Reject(reject)
            && tells_of(after.findings@.last(), reject)
    } else {
        after.counts == before.counts && after.findings@ == before.findings@
    }
}

/// How a run records what became of an entry.
pub open spec fn records_entry(
    before: OciApplyRun,
    materialization: FilesystemMaterialization,
    findings: Seq<FilesystemFinding>,
    after: OciApplyRun,
) -> bool {
    &&& after.wf()
    &&& after.plan == before.plan
    &&& after.next == before.next
    &&& after.stage == Stage::Between
    &&& after.findings@ == before.findings@ + findings
    &&& if materialization == FilesystemMaterialization::DestinationExists || materialization
        == FilesystemMaterialization::Failed {
        &&& after.counts.unmade == before.counts.unmade + 1
        &&& after.counts == (Counts { unmade: after.counts.unmade, ..before.counts })
    } else {
        &&& after.counts.materialized == before.counts.materialized + 1
        &&& after.counts == (Counts { materialized: after.counts.materialized, ..before.counts })
    }
}

/// How a run records how a removal went.
pub open spec fn records_removal(
    before: OciApplyRun,
    finding: FilesystemFinding,
    after: OciApplyRun,
) -> bool {
    &&& after.wf()
    &&& after.plan == before.plan
    &&& after.next == before.next
    &&& after.stage == Stage::Between
    &&& after.findings@ == before.findings@.push(finding)
    &&& if before.stage == Stage::Closing(Active::Whiteout) {
        &&& after.counts.removed == before.counts.removed + 1
        &&& after.counts == (Counts { removed: after.counts.removed, ..before.counts })
    } else {
        &&& after.counts.cleared == before.counts.cleared + 1
        &&& after.counts == (Counts { cleared: after.counts.cleared, ..before.counts })
    }
}

/// The report of a run that has ended.
pub open spec fn is_report(
    run: OciApplyRun,
    deferred: Seq<FilesystemFinding>,
    report: OciApplyReport,
) -> bool {
    &&& report.verified == run.plan.expected
    &&& report.findings@ == run.findings@ + deferred
    &&& report.materialized == run.counts.materialized
    &&& report.removed == run.counts.removed
    &&& report.cleared == run.counts.cleared
    &&& report.rejected == run.counts.rejected
    &&& run.stage == (Stage::Ended { open: false }) ==> {
        &&& report.materialized + report.removed + report.cleared + report.rejected
            + run.counts.unmade == run.plan.operations@.len()
        &&& report.rejected == refusals(run.plan.operations@)
    }
}

/// What is done with a run.
pub enum ApplyMove<'a> {
    /// It takes what the stream holds.
    Step { event: LayerEvent<'a>, action: ActionView },
    /// It records what became of an entry.
    Entry { materialization: FilesystemMaterialization, findings: Seq<FilesystemFinding> },
    /// It records how a removal went.
    Removal { finding: FilesystemFinding },
}

/// A step of a history is one that a run can make.
pub open spec fn makes_move(
    history: Seq<OciApplyRun>,
    moves: Seq<ApplyMove>,
    step: int,
) -> bool {
    let before = history[step];
    let after = history[step + 1];
    match moves[step] {
        ApplyMove::Step { event, action } => before.is_running() && takes(
            before,
            event,
            after,
            action,
        ),
        ApplyMove::Entry { materialization, findings } => before.stage == Stage::Closing(
            Active::Materialize,
        ) && records_entry(before, materialization, findings, after),
        ApplyMove::Removal { finding } => (before.stage == Stage::Closing(Active::Whiteout)
            || before.stage == Stage::Closing(Active::Opaque)) && records_removal(
            before,
            finding,
            after,
        ),
    }
}

proof fn lemma_plan_is_kept(history: Seq<OciApplyRun>, moves: Seq<ApplyMove>, at: int)
    requires
        0 <= at < history.len(),
        history.len() == moves.len() + 1,
        forall|step: int| 0 <= step < moves.len() ==> #[trigger] makes_move(history, moves, step),
    ensures
        history[at].plan == history[0].plan,
    decreases at,
{
    if at > 0 {
        lemma_plan_is_kept(history, moves, at - 1);
        assert(makes_move(history, moves, at - 1));
    }
}

/// A run that has begun with a plan and was carried through its steps to a report
/// has verified what the plan expects: the digests of the layer that was read. If
/// the stream has ended its entries, then it reports as refused exactly the entries
/// that the plan refuses, and every operation has come to one end.
pub proof fn law_reports_follow_the_plan(
    plan: OciLayerPlan,
    actual: LayerDigests,
    history: Seq<OciApplyRun>,
    moves: Seq<ApplyMove>,
    deferred: Seq<FilesystemFinding>,
    report: OciApplyReport,
)
    requires
        history.len() == moves.len() + 1,
        has_begun(plan, actual, history[0]),
        forall|step: int| 0 <= step < moves.len() ==> #[trigger] makes_move(history, moves, step),
        history.last().stage is Ended,
        is_report(history.last(), deferred, report),
    ensures
        report.verified == plan.expected,
        report.verified@ == actual@,
        history.last().stage == (Stage::Ended { open: false }) ==> {
            &&& report.rejected == refusals(plan.operations@)
            &&& report.materialized + report.removed + report.cleared + report.rejected
                + history.last().counts.unmade == plan.operations@.len()
        },
{
    lemma_plan_is_kept(history, moves, history.len() - 1);
}

impl OciApplyRun {
    /// Every operation that was used up has come to one end, but for the one
    /// whose entry is open.
    pub open spec fn wf(&self) -> bool {
        let pending: int = match self.stage {
            Stage::Open(active) | Stage::Closing(active) => if active == Active::Skip {
                0
            } else {
                1
            },
            Stage::Ended { open } => if open {
                1
            } else {
                0
            },
            _ => 0,
        };
        &&& self.next <= self.plan.operations@.len()
        &&& match self.stage {
            Stage::Open(active) => active != Active::Skip ==> self.next > 0 && active == activity(
                self.plan.operations@[self.next - 1],
            ),
            Stage::Closing(active) => {
                &&& active == Active::Materialize || active == Active::Whiteout || active
                    == Active::Opaque
                &&& self.next > 0
                &&& active == activity(self.plan.operations@[self.next - 1])
            },
            _ => true,
        }
        &&& !(self.stage is Failed) ==> {
            &&& self.counts.total() + pending == self.next
            &&& self.counts.rejected == refusals(self.plan.operations@.take(self.next - pending))
        }
        &&& self.stage is Ended ==> self.next == self.plan.operations@.len()
    }

    /// The stream may go on.
    pub open spec fn is_running(&self) -> bool {
        self.stage is Between || self.stage is Open
    }

    /// Begins to apply a plan to a destination, given the digests of the layer
    /// that was read. Nothing is asked of the destination unless they are those
    /// that the plan expects.
    pub fn begin(plan: OciLayerPlan, actual: &LayerDigests) -> (result: Result<
        Self,
        DigestMismatch,
    >)
        ensures
            match result {
                Ok(run) => has_begun(plan, *actual, run),
                Err(mismatch) => is_verdict(*actual, plan.expected, Err(mismatch)),
            },
    {
        if let Err(mismatch) = verify_digests(actual, &plan.expected) {
            return Err(mismatch);
        }
        Ok(
            OciApplyRun {
                plan,
                stage: Stage::Between,
                next: 0,
                findings: Vec::new(),
                counts: Counts { materialized: 0, removed: 0, cleared: 0, rejected: 0, unmade: 0 },
            },
        )
    }

    /// Takes what the stream holds next.
    pub fn step(&mut self, event: LayerEvent) -> (action: ApplyAction)
        requires
            old(self).wf(),
            old(self).is_running(),
        ensures
            takes(*old(self), event, *final(self), action@),
    {
        match event {
            LayerEvent::ArchiveMetadata => ApplyAction::Continue,
            LayerEvent::Entry(metadata) => self.open_entry(metadata),
            LayerEvent::Data => match self.stage {
                Stage::Open(Active::Materialize) => ApplyAction::WriteData,
                _ => ApplyAction::Continue,
            },
            LayerEvent::EndEntry => self.end(),
            LayerEvent::Done => {
                if self.next < self.plan.operations.len() {
                    self.stage = Stage::Failed;
                    ApplyAction::Fail {
                        abort: false,
                        reason: "plan has more operations than the layer stream",
                    }
                } else {
                    self.stage = Stage::Ended {
                        open: match self.stage {
                            Stage::Open(active) => active != Active::Skip,
                            _ => false,
                        },
                    };
                    ApplyAction::FinishSession
                }
            },
        }
    }

    fn open_entry(&mut self, metadata: &EntryMetadata) -> (action: ApplyAction)
        requires
            old(self).wf(),
            old(self).is_running(),
        ensures
            final(self).wf(),
            final(self).plan == old(self).plan,
            final(self).counts == old(self).counts,
            final(self).findings == old(self).findings,
            (final(self).stage, final(self).next as nat, action@) == advanced(
                old(self).plan.operations@,
                old(self).stage,
                old(self).next as nat,
                LayerEvent::Entry(metadata),
            ),
    {
        if let Stage::Open(_) = self.stage {
            self.stage = Stage::Failed;
            return ApplyAction::Fail {
                abort: true,
                reason: "layer entry began before the previous entry ended",
            };
        }
        if is_structural_skip(metadata) {
            self.stage = Stage::Open(Active::Skip);
            return ApplyAction::Continue;
        }
        let count: usize = self.plan.operations.len();
        if self.next >= count {
            self.stage = Stage::Failed;
            return ApplyAction::Fail {
                abort: false,
                reason: "layer stream produced more entries than the plan",
            };
        }
        let active = match &self.plan.operations[self.next] {
            OciPlanOperation::Materialize(_) | OciPlanOperation::MapOwnership(
                _,
            ) => Active::Materialize,
            OciPlanOperation::Whiteout(_) => Active::Whiteout,
            OciPlanOperation::OpaqueDir(_) => Active::Opaque,
            OciPlanOperation::Reject(_) => Active::Reject,
        };
        self.next = self.next + 1;
        self.stage = Stage::Open(active);
        if active == Active::Materialize {
            ApplyAction::BeginEntry
        } else {
            ApplyAction::Continue
        }
    }

    fn end(&mut self) -> (action: ApplyAction)
        requires
            old(self).wf(),
            old(self).is_running(),
        ensures
            final(self).wf(),
            final(self).plan == old(self).plan,
            (final(self).stage, final(self).next as nat, action@) == advanced(
                old(self).plan.operations@,
                old(self).stage,
                old(self).next as nat,
                LayerEvent::EndEntry,
            ),
            if old(self).stage == Stage::Open(Active::Reject) {
                &&& final(self).counts == (Counts {
                    rejected: final(self).counts.rejected,
                    ..old(self).counts
                })
                &&& final(self).counts.rejected == old(self).counts.rejected + 1
                &&& final(self).findings@.len() == old(self).findings@.len() + 1
                &&& final(self).findings@.drop_last() == old(self).findings@
                &&& old(self).plan.operations@[old(self).next - 1] matches OciPlanOperation::Reject(
                    reject,
                ) && tells_of(final(self).findings@.last(), reject)
            } else {
                final(self).counts == old(self).counts && final(self).findings == old(
                    self,
                ).findings
            },
    {
        let active = match self.stage {
            Stage::Open(active) => active,
            _ => {
                self.stage = Stage::Failed;
                return ApplyAction::Fail {
                    abort: false,
                    reason: "layer ended an entry that was not open",
                };
            },
        };
        match active {
            Active::Skip => {
                self.stage = Stage::Between;
                ApplyAction::Continue
            },
            Active::Materialize => {
                self.stage = Stage::Closing(active);
                ApplyAction::FinishEntry
            },
            Active::Whiteout => {
                self.stage = Stage::Closing(active);
                ApplyAction::RemovePath
            },
            Active::Opaque => {
                self.stage = Stage::Closing(active);
                ApplyAction::ClearDirectory
            },
            Active::Reject => {
                proof {
                    lemma_refusals(self.plan.operations@, self.next - 1);
                }
                let ghost before = self.findings@;
                if let OciPlanOperation::Reject(reject) = &self.plan.operations[self.next - 1] {
                    let finding = FilesystemFinding::refused(
                        reject.path.duplicate(),
                        FilesystemOperation::Entry,
                        reject.reason.label(),
                    );
                    self.findings.push(finding);
                    proof {
                        assert(self.findings@.drop_last() =~= before);
                    }
                }
                self.counts.rejected = self.counts.rejected + 1;
                self.stage = Stage::Between;
                ApplyAction::Continue
            },
        }
    }

    /// The operation of the entry that is open or has just ended.
    pub fn current(&self) -> (operation: Option<&OciPlanOperation>)
        requires
            self.wf(),
        ensures
            match self.stage {
                Stage::Open(active) | Stage::Closing(active) => if active == Active::Skip {
                    operation is None
                } else {
                    operation == Some(&self.plan.operations@[self.next - 1])
                },
                _ => operation is None,
            },
    {
        match self.stage {
            Stage::Open(Active::Skip) => None,
            Stage::Open(_) | Stage::Closing(_) => Some(&self.plan.operations[self.next - 1]),
            _ => None,
        }
    }

    /// Records what became of an entry. One that the destination did not create is
    /// told of by its findings; it is no refusal of the plan.
    pub fn entry_finished(
        &mut self,
        materialization: FilesystemMaterialization,
        findings: Vec<FilesystemFinding>,
    )
        requires
            old(self).wf(),
            old(self).stage == Stage::Closing(Active::Materialize),
        ensures
            records_entry(*old(self), materialization, findings@, *final(self)),
    {
        proof {
            lemma_refusals(self.plan.operations@, self.next - 1);
        }
        let mut findings = findings;
        self.findings.append(&mut findings);
        match materialization {
            FilesystemMaterialization::DestinationExists | FilesystemMaterialization::Failed => {
                self.counts.unmade = self.counts.unmade + 1;
            },
            _ => {
                self.counts.materialized = self.counts.materialized + 1;
            },
        }
        self.stage = Stage::Between;
    }

    /// Records how a removal went.
    pub fn removal_finished(&mut self, finding: FilesystemFinding)
        requires
            old(self).wf(),
            old(self).stage == Stage::Closing(Active::Whiteout) || old(self).stage
                == Stage::Closing(Active::Opaque),
        ensures
            records_removal(*old(self), finding, *final(self)),
    {
        proof {
            lemma_refusals(self.plan.operations@, self.next - 1);
        }
        self.findings.push(finding);
        match self.stage {
            Stage::Closing(Active::Whiteout) => {
                self.counts.removed = self.counts.removed + 1;
            },
            _ => {
                self.counts.cleared = self.counts.cleared + 1;
            },
        }
        self.stage = Stage::Between;
    }

    /// The report of a run that has ended, with the findings of its end. If the
    /// stream has ended all its entries, then every operation of the plan has come
    /// to exactly one end, and the refusals reported are those of the plan.
    pub fn finish(self, deferred: Vec<FilesystemFinding>) -> (report: OciApplyReport)
        requires
            self.wf(),
            self.stage is Ended,
        ensures
            is_report(self, deferred@, report),
    {
        proof {
            let operations = self.plan.operations@;
            assert(operations.take(operations.len() as int) =~= operations);
        }
        let mut findings = self.findings;
        let mut deferred = deferred;
        findings.append(&mut deferred);
        OciApplyReport {
            verified: self.plan.expected,
            findings,
            materialized: self.counts.materialized,
            removed: self.counts.removed,
            cleared: self.counts.cleared,
            rejected: self.counts.rejected,
        }
    }
}

/// What became of a layer.
#[derive(Debug)]
pub struct OciApplyReport {
    pub verified: LayerDigests,
    pub findings: Vec<FilesystemFinding>,
    pub materialized: usize,
    pub removed: usize,
    pub cleared: usize,
    pub rejected: usize,
}

impl OciApplyReport {
    /// The digests of the layer.
    pub fn verified(&self) -> (digests: LayerDigests)
        ensures
            digests == self.verified,
    {
        self.verified
    }

    /// What is to be told about the operations.
    pub fn findings(&self) -> (findings: &[FilesystemFinding])
        ensures
            findings@ == self.findings@,
    {
        self.findings.as_slice()
    }

    /// The number of entries created.
    pub fn materialized(&self) -> (count: usize)
        ensures
            count == self.materialized,
    {
        self.materialized
    }

    /// The number of paths removed.
    pub fn removed(&self) -> (count: usize)
        ensures
            count == self.removed,
    {
        self.removed
    }

    /// The number of directories cleared.
    pub fn cleared(&self) -> (count: usize)
        ensures
            count == self.cleared,
    {
        self.cleared
    }

    /// The number of entries refused by the plan.
    pub fn rejected(&self) -> (count: usize)
        ensures
            count == self.rejected,
    {
        self.rejected
    }

    /// Whether an operation was not fully done.
    pub fn has_findings(&self) -> (found: bool)
        ensures
            found == exists|i: int|
                0 <= i < self.findings@.len() && (#[trigger] self.findings@[i]).kind
                    != FilesystemFindingKind::Applied,
    {
        let mut i: usize = 0;
        while i < self.findings.len()
            invariant
                i <= self.findings@.len(),
                forall|j: int|
                    0 <= j < i ==> (#[trigger] self.findings@[j]).kind
                        == FilesystemFindingKind::Applied,
            decreases self.findings@.len() - i,
        {
            if self.findings[i].kind != FilesystemFindingKind::Applied {
                return true;
            }
            i += 1;
        }
        false
    }

    /// The digests and the findings.
    pub fn into_parts(self) -> (parts: (LayerDigests, Vec<FilesystemFinding>))
        ensures
            parts.0 == self.verified,
            parts.1 == self.findings,
    {
        (self.verified, self.findings)
    }
}

} // verus!
