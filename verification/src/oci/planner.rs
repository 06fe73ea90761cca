//! Building the plan of a layer.

use vstd::prelude::*;
use vstd::string::*;
use crate::bytes::same_bytes;
use crate::entry::{ArchivePath, EntryKind, EntryMetadata, Extension, OwnerView};
use crate::oci::digest::LayerDigests;
use crate::oci::plan::{
    announces, classify, is_root_entry, is_structural_skip, Marker, MarkerView, OciMaterialize,
    OciPlanOperation, OciReject, OciRejection, OciRemoval, OwnershipMapper, Policy,
};
use crate::path::{
    is_normal_on, law_safe_paths_stay_inside, raw_path, safe_archive_path, safe_on, sanitize,
    sanitize_archive_path, PathRules, SafePath,
};
use crate::path_set::{copy_path, optional_path, Destination, PathSet};

verus! {

/// A plan that is bound to one applier and to the digests of one layer.
#[derive(Clone, Debug)]
pub struct OciLayerPlan {
    pub session_id: u64,
    pub expected: LayerDigests,
    pub policy: Policy,
    pub operations: Vec<OciPlanOperation>,
}

impl OciLayerPlan {
    /// The digests that the layer must have.
    pub fn expected(&self) -> (digests: LayerDigests)
        ensures
            digests == self.expected,
    {
        self.expected
    }

    /// The operations, in the order of the entries.
    pub fn operations(&self) -> (operations: &[OciPlanOperation])
        ensures
            operations@ == self.operations@,
    {
        self.operations.as_slice()
    }
}

// ---------------------------------------------------------------------------
// What is planned
// ---------------------------------------------------------------------------

/// What a planner remembers about the entries it has seen.
#[verifier::ext_equal]
pub struct PlannerView {
    pub policy: Policy,
    /// Whether the platform has device nodes and the like.
    pub special_supported: bool,
    /// Which names the host takes for paths.
    pub rules: PathRules,
    /// Destinations that an entry has claimed.
    pub claimed: Set<Destination>,
    /// Destinations of files and hard links.
    pub committed: Set<Destination>,
    /// Destinations of symbolic links.
    pub symlinks: Set<Destination>,
}

/// What is planned for an entry.
pub enum Planned {
    /// Nothing.
    Skip,
    Reject(OciRejection),
    Remove { opaque: bool, destination: Destination },
    Create { destination: Destination, link: Option<Destination> },
}

/// `above` is a directory on the way to `below`.
pub open spec fn leads_to(above: Destination, below: Destination) -> bool {
    0 < above.len() < below.len() && above == below.take(above.len() as int)
}

/// Whether an entry stands for a file that is not in the archive.
pub open spec fn is_thin_reference(extension: Extension) -> bool {
    extension.namespace@ == "ar-thin".spec_bytes() && extension.key@
        == "external-reference".spec_bytes()
}

/// Whether an entry stands for a file that is not in the archive.
pub open spec fn refers_outside(extensions: Seq<Extension>) -> bool {
    exists|i: int| 0 <= i < extensions.len() && is_thin_reference(#[trigger] extensions[i])
}

/// Whether a kind can be created at all.
pub open spec fn kind_is_allowed(policy: Policy, special_supported: bool, kind: EntryKind) -> bool {
    match kind {
        EntryKind::File | EntryKind::Dir | EntryKind::Symlink | EntryKind::Hardlink => true,
        EntryKind::Char | EntryKind::Block | EntryKind::Fifo | EntryKind::Socket => {
            policy.special_files && special_supported
        },
        EntryKind::Other => false,
    }
}

impl PlannerView {
    /// A destination lies behind a symbolic link of this layer.
    pub open spec fn escapes(self, destination: Destination) -> bool {
        exists|link: Destination|
            #[trigger] self.symlinks.contains(link) && leads_to(link, destination)
    }

    /// Where a link leads, or why it is refused.
    pub open spec fn link(self, metadata: EntryMetadata) -> Result<
        Option<Destination>,
        OciRejection,
    > {
        let target = match metadata.link_target {
            Some(path) => safe_archive_path(path, self.rules),
            None => None,
        };
        match metadata.kind {
            EntryKind::Symlink => if !self.policy.symlinks {
                Err(OciRejection::UnsupportedKind)
            } else if target is None {
                Err(OciRejection::UnsafeLinkTarget)
            } else {
                Ok(target)
            },
            EntryKind::Hardlink => if !self.policy.hardlinks {
                Err(OciRejection::UnsupportedKind)
            } else if target is None || !self.committed.contains(target->0) {
                Err(OciRejection::UnsafeLinkTarget)
            } else {
                Ok(target)
            },
            _ => Ok(None),
        }
    }

    /// What is planned for a marker of a removal.
    pub open spec fn removal(self, raw: Seq<u8>, opaque: bool) -> Planned {
        let destination = if raw.len() == 0 {
            Some(Seq::<Seq<u8>>::empty())
        } else {
            safe_on(raw, self.rules)
        };
        match destination {
            None => Planned::Reject(OciRejection::UnsafePath),
            Some(destination) => if self.escapes(destination) {
                Planned::Reject(OciRejection::SymlinkEscape)
            } else {
                Planned::Remove { opaque, destination }
            },
        }
    }

    /// Whether an entry gets as far as to claim a destination, and which.
    pub open spec fn claims(self, metadata: EntryMetadata) -> Result<Destination, OciRejection> {
        if refers_outside(metadata.extensions@) {
            Err(OciRejection::UnsupportedKind)
        } else {
            match safe_archive_path(metadata.path, self.rules) {
                None => Err(OciRejection::UnsafePath),
                Some(destination) => if self.escapes(destination) {
                    Err(OciRejection::SymlinkEscape)
                } else if self.claimed.contains(destination) {
                    Err(OciRejection::Duplicate)
                } else {
                    Ok(destination)
                },
            }
        }
    }

    /// What is planned for an ordinary entry.
    pub open spec fn creation(self, metadata: EntryMetadata) -> Planned {
        match self.claims(metadata) {
            Err(reason) => Planned::Reject(reason),
            Ok(destination) => match self.link(metadata) {
                Err(reason) => Planned::Reject(reason),
                Ok(link) => if kind_is_allowed(
                    self.policy,
                    self.special_supported,
                    metadata.kind,
                ) {
                    Planned::Create { destination, link }
                } else {
                    Planned::Reject(OciRejection::UnsupportedKind)
                },
            },
        }
    }

    /// What is planned for an entry.
    pub open spec fn planned(self, metadata: EntryMetadata) -> Planned {
        if is_root_entry(metadata.kind, metadata.path.bytes@) {
            Planned::Skip
        } else {
            match announces(metadata.path.bytes@) {
                MarkerView::Unsafe => Planned::Reject(OciRejection::UnsafePath),
                MarkerView::Whiteout(target) => self.removal(target, false),
                MarkerView::Opaque(directory) => self.removal(directory, true),
                MarkerView::Regular => self.creation(metadata),
            }
        }
    }

    /// What is remembered after an entry. A destination stays claimed even if
    /// its entry is refused after that.
    pub open spec fn after(self, metadata: EntryMetadata) -> PlannerView {
        if is_root_entry(metadata.kind, metadata.path.bytes@) || announces(metadata.path.bytes@)
            !is Regular {
            self
        } else {
            match self.claims(metadata) {
                Err(_) => self,
                Ok(destination) => PlannerView {
                    claimed: self.claimed.insert(destination),
                    committed: if self.creation(metadata) is Create && (metadata.kind
                        == EntryKind::File || metadata.kind == EntryKind::Hardlink) {
                        self.committed.insert(destination)
                    } else {
                        self.committed
                    },
                    symlinks: if self.creation(metadata) is Create && metadata.kind
                        == EntryKind::Symlink {
                        self.symlinks.insert(destination)
                    } else {
                        self.symlinks
                    },
                    ..self
                },
            }
        }
    }
}

/// An operation that creates an entry with its owner mapped.
pub open spec fn creates_entry(
    operation: OciMaterialize,
    metadata: EntryMetadata,
    destination: Destination,
    link: Option<Destination>,
    mapped: OwnerView,
) -> bool {
    &&& operation.destination@ == destination
    &&& optional_path(operation.link_target) == link
    &&& operation.metadata == EntryMetadata { owner: operation.metadata.owner, ..metadata }
    &&& operation.metadata.owner@ == mapped
}

/// An operation does what is planned for an entry.
pub open spec fn carries_out(
    operation: OciPlanOperation,
    planned: Planned,
    metadata: EntryMetadata,
    mapped: OwnerView,
) -> bool {
    match (planned, operation) {
        (Planned::Reject(reason), OciPlanOperation::Reject(reject)) => {
            reject.path@ == metadata.path@ && reject.reason == reason
        },
        (Planned::Remove { opaque, destination }, OciPlanOperation::Whiteout(removal)) => {
            !opaque && removal.path@ == metadata.path@ && removal.destination@ == destination
        },
        (Planned::Remove { opaque, destination }, OciPlanOperation::OpaqueDir(removal)) => {
            opaque && removal.path@ == metadata.path@ && removal.destination@ == destination
        },
        (Planned::Create { destination, link }, OciPlanOperation::Materialize(created)) => {
            &&& mapped == metadata.owner@
            &&& creates_entry(created, metadata, destination, link, mapped)
            &&& created.original_owner is None
        },
        (Planned::Create { destination, link }, OciPlanOperation::MapOwnership(created)) => {
            &&& mapped != metadata.owner@
            &&& creates_entry(created, metadata, destination, link, mapped)
            &&& created.original_owner is Some
            &&& (created.original_owner->0)@ == metadata.owner@
        },
        _ => false,
    }
}

// ---------------------------------------------------------------------------
// Safe plans
// ---------------------------------------------------------------------------

/// The entry that an operation creates.
pub open spec fn created(operation: OciPlanOperation) -> Option<OciMaterialize> {
    match operation {
        OciPlanOperation::Materialize(created) | OciPlanOperation::MapOwnership(created) => Some(
            created,
        ),
        _ => None,
    }
}

/// What an operation touches.
pub open spec fn touched(operation: OciPlanOperation) -> Option<Destination> {
    match operation {
        OciPlanOperation::Materialize(created) | OciPlanOperation::MapOwnership(created) => Some(
            created.destination@,
        ),
        OciPlanOperation::Whiteout(removal) | OciPlanOperation::OpaqueDir(removal) => Some(
            removal.destination@,
        ),
        OciPlanOperation::Reject(_) => None,
    }
}

/// An operation creates an entry of a kind at a destination.
pub open spec fn makes(
    operation: OciPlanOperation,
    kind: EntryKind,
    destination: Destination,
) -> bool {
    match created(operation) {
        Some(created) => created.metadata.kind == kind && created.destination@ == destination,
        None => false,
    }
}

/// Two operations do not create the same destination, and the later one does
/// not reach through a symbolic link that the earlier one creates.
pub open spec fn do_not_clash(earlier: OciPlanOperation, later: OciPlanOperation) -> bool {
    &&& created(earlier) is Some && created(later) is Some ==> touched(earlier) != touched(later)
    &&& created(earlier) is Some && (created(earlier)->0).metadata.kind == EntryKind::Symlink
        && touched(later) is Some ==> !leads_to(touched(earlier)->0, touched(later)->0)
}

/// What an operation touches lies inside the root: all its components name
/// something in their directory.
pub open spec fn stays_inside(operation: OciPlanOperation, rules: PathRules) -> bool {
    touched(operation) matches Some(destination) ==> forall|i: int|
        0 <= i < destination.len() ==> is_normal_on(#[trigger] destination[i], rules)
}

/// A hard link leads to a file or hard link that an earlier operation creates.
pub open spec fn links_back(operations: Seq<OciPlanOperation>, at: int) -> bool {
    match created(operations[at]) {
        Some(created) => created.metadata.kind == EntryKind::Hardlink ==> {
            &&& created.link_target is Some
            &&& exists|i: int|
                0 <= i < at && (makes(
                    #[trigger] operations[i],
                    EntryKind::File,
                    (created.link_target->0)@,
                ) || makes(operations[i], EntryKind::Hardlink, (created.link_target->0)@))
        },
        None => true,
    }
}

/// A plan that stays inside the root, creates nothing twice, reaches nothing
/// through its own symbolic links, and links only to its own files.
pub open spec fn is_safe_plan(operations: Seq<OciPlanOperation>, rules: PathRules) -> bool {
    &&& forall|i: int, j: int|
        0 <= i < j < operations.len() ==> do_not_clash(
            #[trigger] operations[i],
            #[trigger] operations[j],
        )
    &&& forall|i: int| 0 <= i < operations.len() ==> stays_inside(#[trigger] operations[i], rules)
    &&& forall|i: int|
        #![trigger operations[i]]
        0 <= i < operations.len() ==> links_back(operations, i)
}

/// What a planner remembers agrees with the operations it has planned.
pub open spec fn remembers(view: PlannerView, operations: Seq<OciPlanOperation>) -> bool {
    &&& forall|i: int|
        0 <= i < operations.len() && created(#[trigger] operations[i]) is Some
            ==> view.claimed.contains(touched(operations[i])->0)
    &&& forall|i: int|
        0 <= i < operations.len() && created(#[trigger] operations[i]) is Some && (created(
            operations[i],
        )->0).metadata.kind == EntryKind::Symlink ==> view.symlinks.contains(
            touched(operations[i])->0,
        )
    &&& forall|destination: Destination| #[trigger]
        view.committed.contains(destination) ==> exists|i: int|
            0 <= i < operations.len() && (makes(
                #[trigger] operations[i],
                EntryKind::File,
                destination,
            ) || makes(operations[i], EntryKind::Hardlink, destination))
}

proof fn lemma_safe_archive_path(path: ArchivePath, rules: PathRules)
    ensures
        safe_archive_path(path, rules) matches Some(parts) ==> forall|i: int|
            0 <= i < parts.len() ==> is_normal_on(#[trigger] parts[i], rules),
{
    if let Some(raw) = raw_path(path) {
        law_safe_paths_stay_inside(raw, rules);
    }
}

proof fn lemma_planned_inside(view: PlannerView, metadata: EntryMetadata)
    ensures
        view.planned(metadata) matches Planned::Create { destination, .. } ==> forall|i: int|
            0 <= i < destination.len() ==> is_normal_on(#[trigger] destination[i], view.rules),
        view.planned(metadata) matches Planned::Remove { destination, .. } ==> forall|i: int|
            0 <= i < destination.len() ==> is_normal_on(#[trigger] destination[i], view.rules),
{
    lemma_safe_archive_path(metadata.path, view.rules);
    match announces(metadata.path.bytes@) {
        MarkerView::Whiteout(target) => {
            law_safe_paths_stay_inside(target, view.rules);
        },
        MarkerView::Opaque(directory) => {
            law_safe_paths_stay_inside(directory, view.rules);
        },
        _ => {},
    }
}

/// A plan stays safe when what is planned for one more entry joins it, whatever
/// the entry is.
pub proof fn law_plans_stay_safe(
    view: PlannerView,
    operations: Seq<OciPlanOperation>,
    metadata: EntryMetadata,
    mapped: OwnerView,
    operation: OciPlanOperation,
)
    requires
        is_safe_plan(operations, view.rules),
        remembers(view, operations),
        carries_out(operation, view.planned(metadata), metadata, mapped),
    ensures
        is_safe_plan(operations.push(operation), view.rules),
        remembers(view.after(metadata), operations.push(operation)),
{
    let more = operations.push(operation);
    let last = operations.len() as int;
    assert(more[last] == operation);
    assert forall|i: int, j: int| 0 <= i < j < more.len() implies do_not_clash(
        #[trigger] more[i],
        #[trigger] more[j],
    ) by {
        assert(more[i] == operations[i]);
        if j < last {
            assert(more[j] == operations[j]);
        } else {
            lemma_no_clash(view, operations, metadata, mapped, operation, i);
        }
    }
    lemma_planned_inside(view, metadata);
    assert forall|i: int| 0 <= i < more.len() implies stays_inside(#[trigger] more[i], view.rules) by {
        if i < last {
            assert(more[i] == operations[i]);
        }
    }
    assert forall|i: int| #![trigger more[i]] 0 <= i < more.len() implies links_back(more, i) by {
        if i < last {
            assert(more[i] == operations[i]);
            assert(links_back(operations, i));
            lemma_links_back_extends(operations, operation, i);
        } else {
            lemma_new_link(view, operations, metadata, mapped, operation);
        }
    }
    lemma_remembers(view, operations, metadata, mapped, operation);
}

proof fn lemma_no_clash(
    view: PlannerView,
    operations: Seq<OciPlanOperation>,
    metadata: EntryMetadata,
    mapped: OwnerView,
    operation: OciPlanOperation,
    i: int,
)
    requires
        remembers(view, operations),
        carries_out(operation, view.planned(metadata), metadata, mapped),
        0 <= i < operations.len(),
    ensures
        do_not_clash(operations[i], operation),
{
    let earlier = operations[i];
    if created(earlier) is Some {
        assert(view.claimed.contains(touched(earlier)->0));
        if (created(earlier)->0).metadata.kind == EntryKind::Symlink {
            assert(view.symlinks.contains(touched(earlier)->0));
        }
    }
}

proof fn lemma_links_back_extends(
    operations: Seq<OciPlanOperation>,
    operation: OciPlanOperation,
    at: int,
)
    requires
        0 <= at < operations.len(),
        links_back(operations, at),
    ensures
        links_back(operations.push(operation), at),
{
    let more = operations.push(operation);
    assert(more[at] == operations[at]);
    if let Some(new) = created(operations[at]) {
        if new.metadata.kind == EntryKind::Hardlink {
            let target = (new.link_target->0)@;
            let i = choose|i: int|
                0 <= i < at && (makes(#[trigger] operations[i], EntryKind::File, target) || makes(
                    operations[i],
                    EntryKind::Hardlink,
                    target,
                ));
            assert(more[i] == operations[i]);
        }
    }
}

proof fn lemma_new_link(
    view: PlannerView,
    operations: Seq<OciPlanOperation>,
    metadata: EntryMetadata,
    mapped: OwnerView,
    operation: OciPlanOperation,
)
    requires
        remembers(view, operations),
        carries_out(operation, view.planned(metadata), metadata, mapped),
    ensures
        links_back(operations.push(operation), operations.len() as int),
{
    let more = operations.push(operation);
    let last = operations.len() as int;
    assert(more[last] == operation);
    if let Some(new) = created(operation) {
        if new.metadata.kind == EntryKind::Hardlink {
            let target = (new.link_target->0)@;
            assert(view.link(metadata) == Ok::<_, OciRejection>(Some(target)));
            assert(view.committed.contains(target));
            let i = choose|i: int|
                0 <= i < operations.len() && (makes(
                    #[trigger] operations[i],
                    EntryKind::File,
                    target,
                ) || makes(operations[i], EntryKind::Hardlink, target));
            assert(more[i] == operations[i]);
        }
    }
}

proof fn lemma_remembers(
    view: PlannerView,
    operations: Seq<OciPlanOperation>,
    metadata: EntryMetadata,
    mapped: OwnerView,
    operation: OciPlanOperation,
)
    requires
        remembers(view, operations),
        carries_out(operation, view.planned(metadata), metadata, mapped),
    ensures
        remembers(view.after(metadata), operations.push(operation)),
{
    let more = operations.push(operation);
    let last = operations.len() as int;
    let next = view.after(metadata);
    assert(more[last] == operation);
    assert forall|i: int|
        0 <= i < more.len() && created(#[trigger] more[i]) is Some implies next.claimed.contains(
        touched(more[i])->0,
    ) by {
        if i < last {
            assert(more[i] == operations[i]);
        }
    }
    assert forall|i: int|
        0 <= i < more.len() && created(#[trigger] more[i]) is Some && (created(
            more[i],
        )->0).metadata.kind == EntryKind::Symlink implies next.symlinks.contains(
        touched(more[i])->0,
    ) by {
        if i < last {
            assert(more[i] == operations[i]);
        }
    }
    assert forall|destination: Destination| #[trigger]
        next.committed.contains(destination) implies exists|i: int|
        0 <= i < more.len() && (makes(#[trigger] more[i], EntryKind::File, destination) || makes(
            more[i],
            EntryKind::Hardlink,
            destination,
        )) by {
        if view.committed.contains(destination) {
            let i = choose|i: int|
                0 <= i < operations.len() && (makes(
                    #[trigger] operations[i],
                    EntryKind::File,
                    destination,
                ) || makes(operations[i], EntryKind::Hardlink, destination));
            assert(more[i] == operations[i]);
        } else {
            assert(makes(more[last], metadata.kind, destination));
        }
    }
}

// ---------------------------------------------------------------------------
// The planner
// ---------------------------------------------------------------------------

/// Whether `above` is a directory on the way to `below`.
fn is_on_the_way(above: &SafePath, below: &SafePath) -> (found: bool)
    ensures
        found == leads_to(above@, below@),
{
    let count: usize = above.parts.len();
    if count == 0 || count >= below.parts.len() {
        return false;
    }
    let mut i: usize = 0;
    while i < count
        invariant
            i <= count,
            count == above.parts@.len(),
            count < below.parts@.len(),
            forall|j: int| 0 <= j < i ==> above.parts@[j]@ == below.parts@[j]@,
        decreases count - i,
    {
        if !same_bytes(above.parts[i].as_slice(), below.parts[i].as_slice()) {
            proof {
                assert(above@[i as int] != below@.take(count as int)[i as int]);
            }
            return false;
        }
        i += 1;
    }
    proof {
        assert(above@ =~= below@.take(count as int));
    }
    true
}

fn names_outside_file(extensions: &Vec<Extension>) -> (found: bool)
    ensures
        found == refers_outside(extensions@),
{
    let mut i: usize = 0;
    while i < extensions.len()
        invariant
            i <= extensions@.len(),
            forall|j: int| 0 <= j < i ==> !is_thin_reference(#[trigger] extensions@[j]),
        decreases extensions@.len() - i,
    {
        if same_bytes(extensions[i].namespace.as_slice(), "ar-thin".as_bytes()) && same_bytes(
            extensions[i].key.as_slice(),
            "external-reference".as_bytes(),
        ) {
            proof {
                assert(is_thin_reference(extensions@[i as int]));
            }
            return true;
        }
        i += 1;
    }
    false
}

fn reject(metadata: &EntryMetadata, reason: OciRejection) -> (operation: OciPlanOperation)
    ensures
        operation matches OciPlanOperation::Reject(reject) && reject.path@ == metadata.path@
            && reject.reason == reason,
{
    OciPlanOperation::Reject(OciReject { path: metadata.path.duplicate(), reason })
}

/// Plans the operations of a layer, entry by entry.
pub struct OciLayerPlanner<'a, M: OwnershipMapper> {
    pub policy: Policy,
    pub special_supported: bool,
    pub rules: PathRules,
    pub mapper: &'a M,
    pub operations: Vec<OciPlanOperation>,
    pub claimed: PathSet,
    pub committed_files: PathSet,
    pub symlinks: PathSet,
}

impl<'a, M: OwnershipMapper> View for OciLayerPlanner<'a, M> {
    type V = PlannerView;

    open spec fn view(&self) -> PlannerView {
        PlannerView {
            policy: self.policy,
            special_supported: self.special_supported,
            rules: self.rules,
            claimed: self.claimed@,
            committed: self.committed_files@,
            symlinks: self.symlinks@,
        }
    }
}

impl<'a, M: OwnershipMapper> OciLayerPlanner<'a, M> {
    /// The plan so far is safe and agrees with what is remembered.
    pub open spec fn wf(&self) -> bool {
        is_safe_plan(self.operations@, self.rules) && remembers(self@, self.operations@)
    }

    /// Nothing is planned yet. `special_supported` tells whether the platform
    /// has device nodes, named pipes and sockets, `rules` which names it takes for
    /// paths.
    pub fn new(policy: Policy, special_supported: bool, rules: PathRules, mapper: &'a M) -> (planner:
        Self)
        ensures
            planner.wf(),
            planner.operations@.len() == 0,
            planner.mapper == mapper,
            planner@ == (PlannerView {
                policy,
                special_supported,
                rules,
                claimed: Set::empty(),
                committed: Set::empty(),
                symlinks: Set::empty(),
            }),
    {
        OciLayerPlanner {
            policy,
            special_supported,
            rules,
            mapper,
            operations: Vec::new(),
            claimed: PathSet::new(),
            committed_files: PathSet::new(),
            symlinks: PathSet::new(),
        }
    }

    /// Plans what an entry needs, behind what was planned before.
    pub fn observe(&mut self, metadata: EntryMetadata)
        requires
            old(self).wf(),
        ensures
            final(self).wf(),
            final(self).mapper == old(self).mapper,
            final(self)@ == old(self)@.after(metadata),
            match old(self)@.planned(metadata) {
                Planned::Skip => final(self).operations@ == old(self).operations@,
                planned => {
                    &&& final(self).operations@.len() == old(self).operations@.len() + 1
                    &&& final(self).operations@.drop_last() == old(self).operations@
                    &&& carries_out(
                        final(self).operations@.last(),
                        planned,
                        metadata,
                        old(self).mapper.mapped(metadata.owner@),
                    )
                },
            },
    {
        if is_structural_skip(&metadata) {
            return;
        }
        let ghost entry = metadata;
        let ghost before = self@;
        let ghost mapped = self.mapper.mapped(metadata.owner@);
        let ghost operations = self.operations@;
        let operation = match classify(metadata.path.bytes.as_slice()) {
            Marker::Unsafe => reject(&metadata, OciRejection::UnsafePath),
            Marker::Whiteout(target) => self.plan_removal(&metadata, target.as_slice(), false),
            Marker::Opaque(directory) => self.plan_removal(&metadata, directory.as_slice(), true),
            Marker::Regular => self.plan_materialize(metadata),
        };
        proof {
            assert(self@ == before.after(entry));
            assert(carries_out(operation, before.planned(entry), entry, mapped));
            law_plans_stay_safe(before, operations, entry, mapped, operation);
            assert(operations.push(operation).drop_last() =~= operations);
        }
        self.operations.push(operation);
        proof {
            assert(self@ == before.after(entry));
        }
    }

    /// Plans a removal.
    pub fn plan_removal(&self, metadata: &EntryMetadata, raw: &[u8], opaque: bool) -> (operation:
        OciPlanOperation)
        ensures
            carries_out(operation, self@.removal(raw@, opaque), *metadata, metadata.owner@),
    {
        let destination = if raw.len() == 0 {
            let path = SafePath { parts: Vec::new() };
            proof {
                assert(path@ =~= Seq::<Seq<u8>>::empty());
            }
            Some(path)
        } else {
            sanitize(raw, self.rules)
        };
        let destination = match destination {
            Some(destination) => destination,
            None => {
                return reject(metadata, OciRejection::UnsafePath);
            },
        };
        if self.escapes_symlink(&destination) {
            return reject(metadata, OciRejection::SymlinkEscape);
        }
        let removal = OciRemoval { path: metadata.path.duplicate(), destination };
        if opaque {
            OciPlanOperation::OpaqueDir(removal)
        } else {
            OciPlanOperation::Whiteout(removal)
        }
    }

    /// Plans the creation of an entry.
    fn plan_materialize(&mut self, metadata: EntryMetadata) -> (operation: OciPlanOperation)
        requires
            !is_root_entry(metadata.kind, metadata.path.bytes@),
            announces(metadata.path.bytes@) is Regular,
        ensures
            carries_out(
                operation,
                old(self)@.creation(metadata),
                metadata,
                old(self).mapper.mapped(metadata.owner@),
            ),
            final(self)@ == old(self)@.after(metadata),
            final(self).operations == old(self).operations,
            final(self).mapper == old(self).mapper,
    {
        if names_outside_file(&metadata.extensions) {
            return reject(&metadata, OciRejection::UnsupportedKind);
        }
        let destination = match sanitize_archive_path(&metadata.path, self.rules) {
            Some(destination) => destination,
            None => {
                return reject(&metadata, OciRejection::UnsafePath);
            },
        };
        if self.escapes_symlink(&destination) {
            return reject(&metadata, OciRejection::SymlinkEscape);
        }
        let target = self.link_target(&metadata);
        if !self.claimed.insert(copy_path(&destination)) {
            proof {
                assert(self@ =~= old(self)@);
            }
            return reject(&metadata, OciRejection::Duplicate);
        }
        let link_target = match target {
            Ok(target) => target,
            Err(reason) => {
                return reject(&metadata, reason);
            },
        };
        if !self.kind_allowed(&metadata) {
            return reject(&metadata, OciRejection::UnsupportedKind);
        }
        match metadata.kind {
            EntryKind::File | EntryKind::Hardlink => {
                self.committed_files.insert(copy_path(&destination));
            },
            EntryKind::Symlink => {
                self.symlinks.insert(copy_path(&destination));
            },
            _ => {},
        }
        self.materialize(metadata, destination, link_target)
    }

    /// The creation of an entry with its owner mapped.
    fn materialize(
        &self,
        metadata: EntryMetadata,
        destination: SafePath,
        link_target: Option<SafePath>,
    ) -> (operation: OciPlanOperation)
        ensures
            carries_out(
                operation,
                Planned::Create {
                    destination: destination@,
                    link: optional_path(link_target),
                },
                metadata,
                self.mapper.mapped(metadata.owner@),
            ),
    {
        let mapped = self.mapper.map_owner(&metadata.owner);
        let remapped: bool = !mapped.same(&metadata.owner);
        let original = metadata.owner;
        let metadata = EntryMetadata {
            path: metadata.path,
            kind: metadata.kind,
            link_target: metadata.link_target,
            size: metadata.size,
            mode: metadata.mode,
            links: metadata.links,
            owner: mapped,
            inode: metadata.inode,
            referenced_device: metadata.referenced_device,
            times: metadata.times,
            has_sparse_extents: metadata.has_sparse_extents,
            has_xattrs: metadata.has_xattrs,
            has_acl: metadata.has_acl,
            encrypted: metadata.encrypted,
            extensions: metadata.extensions,
        };
        if remapped {
            OciPlanOperation::MapOwnership(
                OciMaterialize {
                    metadata,
                    destination,
                    link_target,
                    original_owner: Some(original),
                },
            )
        } else {
            OciPlanOperation::Materialize(
                OciMaterialize { metadata, destination, link_target, original_owner: None },
            )
        }
    }

    /// Where a link leads, or why it is refused.
    pub fn link_target(&self, metadata: &EntryMetadata) -> (target: Result<
        Option<SafePath>,
        OciRejection,
    >)
        ensures
            match target {
                Ok(target) => self@.link(*metadata) == Ok::<_, OciRejection>(optional_path(target)),
                Err(reason) => self@.link(*metadata) == Err::<Option<Destination>, _>(reason),
            },
    {
        let target = match &metadata.link_target {
            Some(path) => sanitize_archive_path(path, self.rules),
            None => None,
        };
        match metadata.kind {
            EntryKind::Symlink => {
                if !self.policy.symlinks {
                    return Err(OciRejection::UnsupportedKind);
                }
                match target {
                    Some(target) => Ok(Some(target)),
                    None => Err(OciRejection::UnsafeLinkTarget),
                }
            },
            EntryKind::Hardlink => {
                if !self.policy.hardlinks {
                    return Err(OciRejection::UnsupportedKind);
                }
                match target {
                    Some(target) => if self.committed_files.contains(&target) {
                        Ok(Some(target))
                    } else {
                        Err(OciRejection::UnsafeLinkTarget)
                    },
                    None => Err(OciRejection::UnsafeLinkTarget),
                }
            },
            _ => Ok(None),
        }
    }

    /// Whether a kind can be created.
    pub fn kind_allowed(&self, metadata: &EntryMetadata) -> (allowed: bool)
        ensures
            allowed == kind_is_allowed(self.policy, self.special_supported, metadata.kind),
    {
        match metadata.kind {
            EntryKind::File | EntryKind::Dir | EntryKind::Symlink | EntryKind::Hardlink => true,
            EntryKind::Char | EntryKind::Block | EntryKind::Fifo | EntryKind::Socket => {
                self.policy.special_files && self.special_supported
            },
            EntryKind::Other => false,
        }
    }

    /// Whether a destination lies behind a symbolic link of this layer.
    pub fn escapes_symlink(&self, destination: &SafePath) -> (escapes: bool)
        ensures
            escapes == self@.escapes(destination@),
    {
        let links = &self.symlinks.list;
        let mut i: usize = 0;
        while i < links.len()
            invariant
                i <= links@.len(),
                links@ == self.symlinks.list@,
                forall|j: int| 0 <= j < i ==> !leads_to((#[trigger] links@[j])@, destination@),
            decreases links@.len() - i,
        {
            if is_on_the_way(&links[i], destination) {
                proof {
                    assert(self.symlinks.list@[i as int]@ == links@[i as int]@);
                    assert(self@.symlinks.contains(links@[i as int]@));
                }
                return true;
            }
            i += 1;
        }
        false
    }

    /// Ends the plan. It belongs to one applier.
    pub fn finish(self, session_id: u64, expected: LayerDigests) -> (plan: OciLayerPlan)
        requires
            self.wf(),
        ensures
            is_safe_plan(plan.operations@, self.rules),
            plan.operations@ == self.operations@,
            plan.session_id == session_id,
            plan.expected == expected,
            plan.policy == self.policy,
    {
        OciLayerPlan {
            session_id,
            expected,
            policy: self.policy,
            operations: self.operations,
        }
    }
}

} // verus!
