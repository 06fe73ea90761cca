//! Laws on what the entries of a layer come to: markers, plans, counts and digests.

use vstd::prelude::*;
use vstd::string::*;
use crate::bytes::has_prefix;
use crate::entry::{EntryKind, EntryMetadata};
use crate::filter::aes7z::sha256;
use crate::layout::lemma_ascii;
use crate::oci::apply::{
    records_entry, records_removal, takes, ActionView, Active, Counts, FilesystemFinding,
    FilesystemMaterialization, LayerEvent, OciApplyRun, Stage,
};
use crate::oci::create::{OciLayerBlob, OciLayerFilter};
use crate::oci::digest::{hex, LayerDigests};
use crate::oci::layer::{verify_digests, DigestMismatch};
use crate::oci::plan::{
    announces, is_root_entry, last_slash, split_path, without_end_slash, MarkerView,
    OciRejection,
};
use crate::oci::planner::{refers_outside, Planned, PlannerView};
use crate::parts::SLASH;
use crate::path::safe_archive_path;

verus! {

// ---------------------------------------------------------------------------
// Markers
// ---------------------------------------------------------------------------

/// A name in a directory, with a slash at its end if the entry is written so.
pub open spec fn entry_path(directory: Seq<u8>, name: Seq<u8>, end_slash: bool) -> Seq<u8> {
    let path = if directory.len() == 0 {
        name
    } else {
        directory + seq![0x2fu8] + name
    };
    if end_slash {
        path.push(0x2f)
    } else {
        path
    }
}

proof fn lemma_no_slash(text: Seq<u8>)
    requires
        !text.contains(SLASH),
    ensures
        last_slash(text) is None,
    decreases text.len(),
{
    if text.len() > 0 {
        assert(text.contains(text.last())) by {
            assert(text[text.len() - 1] == text.last());
        }
        assert forall|i: int| 0 <= i < text.drop_last().len() implies text.drop_last()[i]
            != SLASH by {
            assert(text.contains(text[i]));
        }
        lemma_no_slash(text.drop_last());
    }
}

proof fn lemma_slash_is_last(text: Seq<u8>, at: int)
    requires
        0 <= at < text.len(),
        text[at] == SLASH,
        forall|i: int| at < i < text.len() ==> text[i] != SLASH,
    ensures
        last_slash(text) == Some(at),
    decreases text.len(),
{
    if text.len() - 1 > at {
        lemma_slash_is_last(text.drop_last(), at);
    }
}

proof fn lemma_split(directory: Seq<u8>, name: Seq<u8>, end_slash: bool)
    requires
        name.len() > 0,
        !name.contains(SLASH),
    ensures
        split_path(entry_path(directory, name, end_slash)) == (directory, name),
{
    let path = entry_path(directory, name, end_slash);
    let text = entry_path(directory, name, false);
    assert(text.last() == name.last());
    assert(name.contains(name.last())) by {
        assert(name[name.len() - 1] == name.last());
    }
    if end_slash {
        assert(path.drop_last() =~= text);
    }
    assert(without_end_slash(path) == text);
    if directory.len() == 0 {
        lemma_no_slash(text);
        assert(directory =~= Seq::<u8>::empty());
    } else {
        let at = directory.len() as int;
        assert(text[at] == SLASH);
        assert forall|i: int| at < i < text.len() implies text[i] != SLASH by {
            assert(text[i] == name[i - at - 1]);
            assert(name.contains(name[i - at - 1]));
        }
        lemma_slash_is_last(text, at);
        assert(text.take(at) =~= directory);
        assert(text.skip(at + 1) =~= name);
    }
}

/// A name behind `.wh.` in a directory removes exactly the name in this directory,
/// whether or not the entry is written with a slash at its end.
pub proof fn law_whiteouts_name_what_they_remove(
    directory: Seq<u8>,
    name: Seq<u8>,
    end_slash: bool,
)
    requires
        name.len() > 0,
        !name.contains(0x2f),
        name != seq![0x2eu8, 0x77, 0x68, 0x2e, 0x2e, 0x6f, 0x70, 0x71],
    ensures
        announces(entry_path(directory, seq![0x2eu8, 0x77, 0x68, 0x2e] + name, end_slash))
            == MarkerView::Whiteout(entry_path(directory, name, false)),
{
    reveal_strlit(".wh.");
    lemma_ascii(".wh.");
    reveal_strlit(".wh..wh..opq");
    lemma_ascii(".wh..wh..opq");
    let prefix = seq![0x2eu8, 0x77, 0x68, 0x2e];
    let marker = prefix + name;
    assert(prefix =~= ".wh.".spec_bytes());
    assert forall|i: int| 0 <= i < marker.len() implies marker[i] != SLASH by {
        if i >= 4 {
            assert(marker[i] == name[i - 4]);
            assert(name.contains(name[i - 4]));
        }
    }
    lemma_split(directory, marker, end_slash);
    assert(marker.take(4) =~= prefix);
    assert(marker.skip(4) =~= name);
    if marker == ".wh..wh..opq".spec_bytes() {
        assert(name =~= seq![0x2eu8, 0x77, 0x68, 0x2e, 0x2e, 0x6f, 0x70, 0x71]);
    }
}

/// `.wh..wh..opq` in a directory clears this directory; `.wh.` alone removes nothing
/// that could be named; every other name that does not begin with `.wh.` stands for
/// an entry.
pub proof fn law_markers_are_told_by_their_names(
    directory: Seq<u8>,
    name: Seq<u8>,
    end_slash: bool,
)
    requires
        name.len() > 0,
        !name.contains(0x2f),
    ensures
        announces(
            entry_path(
                directory,
                seq![0x2eu8, 0x77, 0x68, 0x2e, 0x2e, 0x77, 0x68, 0x2e, 0x2e, 0x6f, 0x70, 0x71],
                end_slash,
            ),
        ) == MarkerView::Opaque(directory),
        announces(entry_path(directory, seq![0x2eu8, 0x77, 0x68, 0x2e], end_slash))
            == MarkerView::Unsafe,
        !has_prefix(name, seq![0x2eu8, 0x77, 0x68, 0x2e]) ==> announces(
            entry_path(directory, name, end_slash),
        ) == MarkerView::Regular,
{
    reveal_strlit(".wh.");
    lemma_ascii(".wh.");
    reveal_strlit(".wh..wh..opq");
    lemma_ascii(".wh..wh..opq");
    let prefix = seq![0x2eu8, 0x77, 0x68, 0x2e];
    let clear = seq![0x2eu8, 0x77, 0x68, 0x2e, 0x2e, 0x77, 0x68, 0x2e, 0x2e, 0x6f, 0x70, 0x71];
    assert(prefix =~= ".wh.".spec_bytes());
    assert(clear =~= ".wh..wh..opq".spec_bytes());
    lemma_split(directory, clear, end_slash);
    lemma_split(directory, prefix, end_slash);
    lemma_split(directory, name, end_slash);
    assert(prefix.take(4) =~= prefix);
    assert(clear.take(4) =~= prefix);
}

// ---------------------------------------------------------------------------
// Plans
// ---------------------------------------------------------------------------

/// An entry of an archive that is neither the root nor a marker.
pub open spec fn is_plain(metadata: EntryMetadata) -> bool {
    !is_root_entry(metadata.kind, metadata.path.bytes@) && announces(metadata.path.bytes@)
        is Regular
}

/// Only what the policy allows is ever created: symbolic links, hard links, and
/// special files, these also only where the host has them.
pub proof fn law_policies_are_kept(view: PlannerView, metadata: EntryMetadata)
    requires
        view.planned(metadata) is Create,
    ensures
        metadata.kind == EntryKind::Symlink ==> view.policy.symlinks,
        metadata.kind == EntryKind::Hardlink ==> view.policy.hardlinks,
        metadata.kind == EntryKind::Char || metadata.kind == EntryKind::Block || metadata.kind
            == EntryKind::Fifo || metadata.kind == EntryKind::Socket ==> view.policy.special_files
            && view.special_supported,
        metadata.kind != EntryKind::Other,
        is_plain(metadata),
{
}

/// A file or a directory at a safe path that is not taken and not behind a symbolic
/// link of the layer is always created there; a symbolic link too if the policy allows
/// it and its target is safe; a hard link if moreover its target is a file of the
/// layer.
pub proof fn law_safe_entries_are_created(view: PlannerView, metadata: EntryMetadata)
    requires
        is_plain(metadata),
        !refers_outside(metadata.extensions@),
        safe_archive_path(metadata.path, view.rules) is Some,
        !view.escapes(safe_archive_path(metadata.path, view.rules)->0),
        !view.claimed.contains(safe_archive_path(metadata.path, view.rules)->0),
    ensures
        ({
            let destination = safe_archive_path(metadata.path, view.rules)->0;
            let target = match metadata.link_target {
                Some(path) => safe_archive_path(path, view.rules),
                None => None,
            };
            &&& metadata.kind == EntryKind::File || metadata.kind == EntryKind::Dir
                ==> view.planned(metadata) == (Planned::Create { destination, link: None })
            &&& metadata.kind == EntryKind::Symlink && view.policy.symlinks && target is Some
                ==> view.planned(metadata) == (Planned::Create { destination, link: target })
            &&& metadata.kind == EntryKind::Hardlink && view.policy.hardlinks && target is Some
                && view.committed.contains(target->0) ==> view.planned(metadata) == (
            Planned::Create { destination, link: target })
            &&& view.after(metadata).claimed.contains(destination)
        }),
{
}

/// A second entry at a path that was claimed is refused as a duplicate, even if the
/// first was refused later, unless it stands for a file that is not in the archive.
pub proof fn law_second_claims_are_refused(
    view: PlannerView,
    first: EntryMetadata,
    second: EntryMetadata,
)
    requires
        is_plain(first),
        is_plain(second),
        view.claims(first) is Ok,
        safe_archive_path(second.path, view.rules) == safe_archive_path(first.path, view.rules),
        !refers_outside(second.extensions@),
    ensures
        view.after(first).planned(second) == Planned::Reject(OciRejection::Duplicate),
{
    let destination = safe_archive_path(first.path, view.rules)->0;
    let after = view.after(first);
    assert(after.claimed.contains(destination));
    assert(!after.escapes(destination)) by {
        if after.escapes(destination) {
            let link = choose|link: Seq<Seq<u8>>| #[trigger]
                after.symlinks.contains(link) && crate::oci::planner::leads_to(link, destination);
            assert(view.symlinks.contains(link) || link == destination);
        }
    }
}

/// Nothing is created or removed behind a symbolic link that the layer has created, at
/// any depth.
pub proof fn law_nothing_reaches_through_links(
    view: PlannerView,
    link: EntryMetadata,
    other: EntryMetadata,
    more: Seq<Seq<u8>>,
)
    requires
        link.kind == EntryKind::Symlink,
        view.planned(link) is Create,
        more.len() > 0,
        view.planned(link)->Create_destination.len() > 0,
        is_plain(other),
        safe_archive_path(other.path, view.rules) == Some(
            view.planned(link)->Create_destination + more,
        ),
        !refers_outside(other.extensions@),
    ensures
        view.after(link).planned(other) == Planned::Reject(OciRejection::SymlinkEscape),
        view.after(link).escapes(view.planned(link)->Create_destination + more),
{
    let above = view.planned(link)->Create_destination;
    let below = above + more;
    let after = view.after(link);
    assert(below.take(above.len() as int) =~= above);
    assert(after.symlinks.contains(above));
    assert(crate::oci::planner::leads_to(above, below));
}

/// A file of the layer may be linked to by what follows it, and only a file: neither a
/// directory nor a symbolic link may.
pub proof fn law_links_lead_to_files(view: PlannerView, first: EntryMetadata, link: EntryMetadata)
    requires
        view.planned(first) is Create,
        link.kind == EntryKind::Hardlink,
        is_plain(link),
        !refers_outside(link.extensions@),
        link.link_target is Some,
        safe_archive_path(link.link_target->0, view.rules) == Some(
            view.planned(first)->Create_destination,
        ),
        !view.committed.contains(view.planned(first)->Create_destination),
        view.after(first).claims(link) is Ok,
        view.policy.hardlinks,
    ensures
        view.after(first).planned(link) is Create <==> first.kind == EntryKind::File || first.kind
            == EntryKind::Hardlink,
        !(view.after(first).planned(link) is Create) ==> view.after(first).planned(link)
            == Planned::Reject(OciRejection::UnsafeLinkTarget),
{
}

/// An entry that stands for a file outside of the archive is refused.
pub proof fn law_outside_files_are_refused(view: PlannerView, metadata: EntryMetadata, at: int)
    requires
        is_plain(metadata),
        0 <= at < metadata.extensions@.len(),
        metadata.extensions@[at].namespace@ == "ar-thin".spec_bytes(),
        metadata.extensions@[at].key@ == "external-reference".spec_bytes(),
    ensures
        view.planned(metadata) == Planned::Reject(OciRejection::UnsupportedKind),
        view.after(metadata) == view,
{
    assert(crate::oci::planner::is_thin_reference(metadata.extensions@[at]));
}

// ---------------------------------------------------------------------------
// Counts
// ---------------------------------------------------------------------------

/// A removal of a path and the clearing of a directory are asked for where the plan
/// says so, and are counted apart, each as one.
pub proof fn law_removals_are_counted_apart(
    before: OciApplyRun,
    metadata: EntryMetadata,
    first: ActionView,
    open: OciApplyRun,
    second: ActionView,
    closing: OciApplyRun,
    finding: FilesystemFinding,
    after: OciApplyRun,
)
    requires
        before.stage == Stage::Between,
        before.next < before.plan.operations@.len(),
        !is_root_entry(metadata.kind, metadata.path.bytes@),
        takes(before, LayerEvent::Entry(&metadata), open, first),
        takes(open, LayerEvent::EndEntry, closing, second),
        records_removal(closing, finding, after),
    ensures
        before.plan.operations@[before.next as int] is Whiteout ==> {
            &&& second == ActionView::RemovePath
            &&& after.counts.removed == before.counts.removed + 1
            &&& after.counts == (Counts { removed: after.counts.removed, ..before.counts })
        },
        before.plan.operations@[before.next as int] is OpaqueDir ==> {
            &&& second == ActionView::ClearDirectory
            &&& after.counts.cleared == before.counts.cleared + 1
            &&& after.counts == (Counts { cleared: after.counts.cleared, ..before.counts })
        },
        after.next == before.next + 1,
{
}

/// An entry that the plan creates is begun, and finished at its end; it counts as
/// created unless something was there already or it failed.
pub proof fn law_creations_are_counted(
    before: OciApplyRun,
    metadata: EntryMetadata,
    first: ActionView,
    open: OciApplyRun,
    second: ActionView,
    closing: OciApplyRun,
    materialization: FilesystemMaterialization,
    findings: Seq<FilesystemFinding>,
    after: OciApplyRun,
)
    requires
        before.stage == Stage::Between,
        before.next < before.plan.operations@.len(),
        before.plan.operations@[before.next as int] is Materialize
            || before.plan.operations@[before.next as int] is MapOwnership,
        !is_root_entry(metadata.kind, metadata.path.bytes@),
        takes(before, LayerEvent::Entry(&metadata), open, first),
        takes(open, LayerEvent::EndEntry, closing, second),
        records_entry(closing, materialization, findings, after),
    ensures
        first == ActionView::BeginEntry,
        second == ActionView::FinishEntry,
        after.findings@ == before.findings@ + findings,
        after.counts.materialized + after.counts.unmade == before.counts.materialized
            + before.counts.unmade + 1,
        after.counts.materialized == before.counts.materialized + 1
            <==> !(materialization is DestinationExists || materialization is Failed),
        after.counts.removed == before.counts.removed,
        after.counts.cleared == before.counts.cleared,
        after.counts.rejected == before.counts.rejected,
{
}

/// Data are handed on for an entry that the plan creates and for no other, and change
/// nothing.
pub proof fn law_only_created_entries_get_data(
    before: OciApplyRun,
    action: ActionView,
    after: OciApplyRun,
)
    requires
        takes(before, LayerEvent::Data, after, action),
    ensures
        action == ActionView::WriteData <==> before.stage == Stage::Open(Active::Materialize),
        after.stage == before.stage,
        after.next == before.next,
        after.counts == before.counts,
{
}

// ---------------------------------------------------------------------------
// Digests
// ---------------------------------------------------------------------------

/// What a hexadecimal digit in lower case stands for.
pub open spec fn digit_value(digit: char) -> Option<int> {
    if '0' <= digit <= '9' {
        Some(digit as int - '0' as int)
    } else if 'a' <= digit <= 'f' {
        Some(digit as int - 'a' as int + 10)
    } else {
        None
    }
}

/// A text of digits gives back the bytes it was made of: two digits a byte, the higher
/// one first.
pub proof fn law_digits_give_the_bytes_back(bytes: Seq<u8>, i: int)
    requires
        0 <= i < bytes.len(),
    ensures
        hex(bytes).len() == 2 * bytes.len(),
        digit_value(hex(bytes)[2 * i]) matches Some(high) && digit_value(hex(bytes)[2 * i + 1])
            matches Some(low) && bytes[i] == 16 * high + low,
{
    let byte = bytes[i] as int;
    assert((2 * i) % 2 == 0 && (2 * i) / 2 == i);
    assert((2 * i + 1) % 2 == 1 && (2 * i + 1) / 2 == i);
    lemma_digit(byte / 16);
    lemma_digit(byte % 16);
}

proof fn lemma_digit(value: int)
    requires
        0 <= value < 16,
    ensures
        digit_value(crate::oci::digest::hex_digit(value)) == Some(value),
{
}

/// A layer is taken exactly if both its digests are those that were expected; of two
/// wrong ones, that of the blob is told, with what was expected and what was found.
pub proof fn law_digests_are_both_held(
    actual: &LayerDigests,
    expected: &LayerDigests,
    result: Result<(), DigestMismatch>,
)
    requires
        call_ensures(verify_digests, (actual, expected), result),
    ensures
        result is Ok <==> actual@ == expected@,
        result matches Err(mismatch) ==> {
            &&& mismatch.kind is Compressed <==> actual.compressed@ != expected.compressed@
            &&& mismatch.kind is Compressed ==> mismatch.expected == expected.compressed
                && mismatch.actual == actual.compressed
            &&& mismatch.kind is DiffId ==> mismatch.expected == expected.diff_id
                && mismatch.actual == actual.diff_id
        },
{
}

/// A layer without a filter has one digest twice; with a filter, the second one is
/// that of the stream before it was compressed, whatever the blob is.
pub proof fn law_layers_are_sealed(
    filter: OciLayerFilter,
    blob: Vec<u8>,
    plain: &[u8],
    layer: OciLayerBlob,
)
    requires
        call_ensures(OciLayerBlob::seal, (filter, blob, plain), layer),
    ensures
        layer.blob@ == blob@,
        layer.digests@.compressed == sha256(layer.blob@),
        filter is Uncompressed ==> layer.digests@.diff_id == layer.digests@.compressed,
        !(filter is Uncompressed) ==> layer.digests@.diff_id == sha256(plain@),
{
}

} // verus!
