use libarchive_oxide::entry::{ArchivePath, EntryKind, EntryMetadata, Owner};
use libarchive_oxide::filtered::detect::FilterId;
use libarchive_oxide::limits::Limits;
use libarchive_oxide::oci::apply::{
    ApplierGuard, ApplyAction, FilesystemFinding, FilesystemMaterialization, FilesystemOperation,
    LayerEvent, OciApplyRun,
};
use libarchive_oxide::oci::create::{OciLayerBlob, OciLayerBuilder, OciLayerFilter};
use libarchive_oxide::oci::digest::{encode_hex, LayerDigests, LayerHasher};
use libarchive_oxide::oci::layer::{verify_digests, DigestKind, OciLayerEngine, OciLayerEntry};
use libarchive_oxide::oci::plan::{
    classify, join, split_last, IdentityOwnership, Marker, OciPlanOperation, OciRejection,
    OwnershipMapper, OwnershipTable, Policy,
};
use libarchive_oxide::oci::planner::{OciLayerPlan, OciLayerPlanner};
use libarchive_oxide::path::PathRules;

fn entry(path: &str, kind: EntryKind) -> EntryMetadata {
    EntryMetadata::new(ArchivePath::from_bytes(path.as_bytes()), kind)
}

fn linked(path: &str, kind: EntryKind, target: &str) -> EntryMetadata {
    let mut metadata = entry(path, kind);
    metadata.link_target = Some(ArchivePath::from_bytes(target.as_bytes()));
    metadata
}

fn open_policy() -> Policy {
    Policy { symlinks: true, hardlinks: true, special_files: true, overwrite: false }
}

fn digests() -> LayerDigests {
    LayerDigests::from_bytes([1; 32], [2; 32])
}

fn plan(entries: Vec<EntryMetadata>, policy: Policy) -> OciLayerPlan {
    let mapper = IdentityOwnership;
    let mut planner = OciLayerPlanner::new(policy, true, PathRules::Unix, &mapper);
    for metadata in entries {
        planner.observe(metadata);
    }
    planner.finish(7, digests())
}

fn reasons(plan: &OciLayerPlan) -> Vec<Option<OciRejection>> {
    plan.operations()
        .iter()
        .map(|operation| match operation {
            OciPlanOperation::Reject(reject) => Some(reject.reason()),
            _ => None,
        })
        .collect()
}

#[test]
fn digests_are_written_in_hexadecimal() {
    assert_eq!(encode_hex([0xab; 32]), "ab".repeat(32));
    let mut hasher = LayerHasher::new();
    hasher.read_blob(b"ab");
    hasher.read_blob(b"c");
    hasher.read_stream(b"");
    let found = hasher.digests();
    assert_eq!(
        found.compressed_descriptor(),
        "sha256:ba7816bf8f01cfea414140de5dae2223b00361a396177a9cb410ff61f20015ad"
    );
    assert_eq!(
        found.diff_id_hex(),
        "e3b0c44298fc1c149afbf4c8996fb92427ae41e4649b934ca495991b7852b855"
    );
}

#[test]
fn wrong_digests_are_named() {
    assert!(verify_digests(&digests(), &digests()).is_ok());
    let other = LayerDigests::from_bytes([1; 32], [3; 32]);
    let mismatch = verify_digests(&other, &digests()).err().unwrap();
    assert_eq!(mismatch.kind(), DigestKind::DiffId);
    assert_eq!(mismatch.expected(), &[2; 32]);
    assert_eq!(mismatch.actual(), &[3; 32]);
    assert!(mismatch.message().contains(" mismatch: expected sha256:0202"));
    let both = LayerDigests::from_bytes([9; 32], [9; 32]);
    assert_eq!(verify_digests(&both, &digests()).err().unwrap().kind(), DigestKind::Compressed);
}

#[test]
fn blobs_carry_their_digests() {
    let blob = OciLayerBlob::seal(OciLayerFilter::Uncompressed, b"abc".to_vec(), b"abc");
    assert_eq!(blob.digests().compressed(), blob.digests().diff_id());
    let blob = OciLayerBlob::seal(OciLayerFilter::Gzip, b"zipped".to_vec(), b"abc");
    assert_ne!(blob.digests().compressed(), blob.digests().diff_id());
    assert_eq!(blob.blob(), b"zipped");
    let mut builder = OciLayerBuilder::with_limits(OciLayerFilter::Zstd, Limits::unlimited());
    assert!(builder.is_empty());
    builder.push_entry(entry("a", EntryKind::File), b"body".to_vec());
    assert_eq!(builder.len(), 1);
    assert_eq!(builder.filter().filter_id(), Some(FilterId::Zstd));
    assert_eq!(OciLayerFilter::Uncompressed.filter_id(), None);
}

#[test]
fn layer_entries_keep_what_is_read() {
    let mut metadata = linked("a", EntryKind::Symlink, "b");
    metadata.owner.uid = Some(5);
    metadata.mode = Some(0o644);
    let layer = OciLayerEntry::from_metadata(&metadata);
    assert_eq!(layer.path(), b"a");
    assert_eq!(layer.link_target().unwrap(), b"b");
    assert_eq!((layer.uid(), layer.gid(), layer.mode()), (Some(5), None, Some(0o644)));
}

#[test]
fn markers_are_recognized_by_their_last_component() {
    assert!(matches!(classify(b"a/b"), Marker::Regular));
    assert!(matches!(classify(b"a/.wh.b"), Marker::Whiteout(path) if path == b"a/b"));
    assert!(matches!(classify(b"a/.wh..wh..opq"), Marker::Opaque(path) if path == b"a"));
    assert!(matches!(classify(b"a/.wh."), Marker::Unsafe));
    assert_eq!(split_last(b"a/b/c"), (&b"a/b"[..], &b"c"[..]));
    assert_eq!(join(b"", b"x"), b"x");
    assert_eq!(join(b"a", b"x"), b"a/x");
}

#[test]
fn plans_create_remove_and_reject() {
    let made = plan(
        vec![
            entry("dir", EntryKind::Dir),
            entry("dir/file", EntryKind::File),
            entry("dir/.wh.old", EntryKind::File),
            entry("dir/.wh..wh..opq", EntryKind::File),
            entry("../up", EntryKind::File),
            entry("dir/file", EntryKind::File),
            linked("hard", EntryKind::Hardlink, "dir/file"),
            linked("soft", EntryKind::Symlink, "dir"),
            entry("soft/inside", EntryKind::File),
            linked("lost", EntryKind::Hardlink, "nowhere"),
        ],
        open_policy(),
    );
    let operations = made.operations();
    assert!(matches!(operations[0], OciPlanOperation::Materialize(_)));
    assert!(matches!(operations[1], OciPlanOperation::Materialize(_)));
    assert!(matches!(
        &operations[2],
        OciPlanOperation::Whiteout(removal) if removal.destination().to_bytes() == b"dir/old"
    ));
    assert!(matches!(
        &operations[3],
        OciPlanOperation::OpaqueDir(removal) if removal.destination().to_bytes() == b"dir"
    ));
    assert_eq!(
        reasons(&made),
        [
            None,
            None,
            None,
            None,
            Some(OciRejection::UnsafePath),
            Some(OciRejection::Duplicate),
            None,
            None,
            Some(OciRejection::SymlinkEscape),
            Some(OciRejection::UnsafeLinkTarget),
        ]
    );
    assert_eq!(OciRejection::Duplicate.label(), "duplicate path within the layer");
}

#[test]
fn plans_follow_the_policy() {
    let closed = Policy { symlinks: false, hardlinks: false, special_files: false, overwrite: false };
    let made = plan(
        vec![
            linked("soft", EntryKind::Symlink, "a"),
            entry("pipe", EntryKind::Fifo),
            entry("plain", EntryKind::File),
        ],
        closed,
    );
    assert_eq!(
        reasons(&made),
        [
            Some(OciRejection::UnsupportedKind),
            Some(OciRejection::UnsupportedKind),
            None
        ]
    );
}

#[test]
fn ownership_is_mapped() {
    let table = OwnershipTable::new().map_uid(1, 100).map_gid(2, 200);
    let mut owner = Owner::unknown();
    owner.uid = Some(1);
    owner.gid = Some(3);
    let mapped = table.map_owner(&owner);
    assert_eq!((mapped.uid, mapped.gid), (Some(100), Some(3)));
    let mut planner = OciLayerPlanner::new(open_policy(), true, PathRules::Unix, &table);
    let mut metadata = entry("a", EntryKind::File);
    metadata.owner.uid = Some(1);
    planner.observe(metadata);
    planner.observe(entry("b", EntryKind::File));
    let made = planner.finish(1, digests());
    assert!(matches!(
        &made.operations()[0],
        OciPlanOperation::MapOwnership(item)
            if item.metadata().owner.uid == Some(100)
                && item.original_owner().unwrap().uid == Some(1)
    ));
    assert!(matches!(made.operations()[1], OciPlanOperation::Materialize(_)));
}

#[test]
fn a_guard_applies_one_plan_of_its_own() {
    let made = plan(Vec::new(), open_policy());
    let mut other = ApplierGuard::new(8);
    assert_eq!(
        other.accept(&made).err().unwrap(),
        "OCI layer plan belongs to a different applier session"
    );
    let mut guard = ApplierGuard::new(7);
    assert!(guard.accept(&made).is_ok());
    assert_eq!(
        guard.accept(&made).err().unwrap(),
        "OCI layer applier has already applied a plan"
    );
}

#[test]
fn runs_apply_the_plan_in_order() {
    let entries = || {
        vec![
            entry("a", EntryKind::File),
            entry(".wh.gone", EntryKind::File),
            entry("../x", EntryKind::File),
        ]
    };
    let mut run = OciApplyRun::begin(plan(entries(), open_policy()), &digests()).ok().unwrap();
    let list = entries();
    assert!(matches!(run.step(LayerEvent::ArchiveMetadata), ApplyAction::Continue));
    assert!(matches!(run.step(LayerEvent::Entry(&list[0])), ApplyAction::BeginEntry));
    assert!(matches!(run.step(LayerEvent::Data), ApplyAction::WriteData));
    assert!(matches!(run.step(LayerEvent::EndEntry), ApplyAction::FinishEntry));
    run.entry_finished(FilesystemMaterialization::File, Vec::new());
    assert!(matches!(run.step(LayerEvent::Entry(&list[1])), ApplyAction::Continue));
    assert!(matches!(run.step(LayerEvent::EndEntry), ApplyAction::RemovePath));
    run.removal_finished(FilesystemFinding::refused(
        ArchivePath::from_bytes(b"gone"),
        FilesystemOperation::Removal,
        "kept",
    ));
    assert!(matches!(run.step(LayerEvent::Entry(&list[2])), ApplyAction::Continue));
    assert!(matches!(run.step(LayerEvent::Data), ApplyAction::Continue));
    assert!(matches!(run.step(LayerEvent::EndEntry), ApplyAction::Continue));
    assert!(matches!(run.step(LayerEvent::Done), ApplyAction::FinishSession));
    let report = run.finish(Vec::new());
    assert_eq!(report.materialized() + report.removed() + report.cleared() + report.rejected(), 3);
    assert_eq!(report.materialized(), 1);
    assert_eq!(report.rejected(), 1);
    assert!(report.has_findings());
}

#[test]
fn reports_count_the_refusals_of_the_plan() {
    let entries = || vec![entry("a", EntryKind::File), entry("../x", EntryKind::File)];
    for materialization in
        [FilesystemMaterialization::Failed, FilesystemMaterialization::DestinationExists]
    {
        let mut run = OciApplyRun::begin(plan(entries(), open_policy()), &digests()).ok().unwrap();
        let list = entries();
        run.step(LayerEvent::Entry(&list[0]));
        run.step(LayerEvent::EndEntry);
        let finding = FilesystemFinding::refused(
            ArchivePath::from_bytes(b"a"),
            FilesystemOperation::Entry,
            "not created",
        );
        run.entry_finished(materialization, vec![finding]);
        run.step(LayerEvent::Entry(&list[1]));
        run.step(LayerEvent::EndEntry);
        run.step(LayerEvent::Done);
        let report = run.finish(Vec::new());
        assert_eq!(report.materialized(), 0);
        assert_eq!(report.rejected(), 1);
        assert!(report.verified() == digests());
        assert_eq!(report.findings().len(), 2);
    }
}

#[test]
fn runs_begin_on_verified_layers_only() {
    let made = plan(vec![entry("a", EntryKind::File)], open_policy());
    let other = LayerDigests::from_bytes([1; 32], [9; 32]);
    let mismatch = OciApplyRun::begin(made, &other).err().unwrap();
    assert_eq!(mismatch.kind(), DigestKind::DiffId);
}

#[test]
fn runs_refuse_streams_that_differ_from_the_plan() {
    let mut run = OciApplyRun::begin(plan(Vec::new(), open_policy()), &digests()).ok().unwrap();
    let extra = entry("a", EntryKind::File);
    assert!(matches!(
        run.step(LayerEvent::Entry(&extra)),
        ApplyAction::Fail { reason: "layer stream produced more entries than the plan", .. }
    ));
    let mut run = OciApplyRun::begin(plan(vec![entry("a", EntryKind::File)], open_policy()), &digests()).ok().unwrap();
    assert!(matches!(
        run.step(LayerEvent::Done),
        ApplyAction::Fail { reason: "plan has more operations than the layer stream", .. }
    ));
}

#[test]
fn layers_are_unfiltered_once() {
    let mut limits = Limits::unlimited();
    limits.decoded_total = Some(9);
    let engine = OciLayerEngine::with_limits(limits);
    assert_eq!(engine.limits().decoded_total, Some(9));
    assert_eq!(engine.limits().filter_depth, limits.filter_depth);
    assert_eq!(engine.tar_limits().filter_depth, Some(0));
    assert_eq!(engine.tar_limits().decoded_total, Some(9));
}
