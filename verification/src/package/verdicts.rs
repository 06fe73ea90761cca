//! Laws on what packages are reported for.

use vstd::prelude::*;
use vstd::string::*;
use crate::entry::ArchivePath;
use crate::error::ErrorKind;
use crate::filtered::detect::FilterId;
use crate::layout::lemma_ascii;
use crate::limits::Limits;
use crate::package::deb::{outer_limits, role_of, supported_version, DebView, MemberPlan, Role};
use crate::package::finding::PackageFindingCode;
use crate::package::nested::{nested_code, FeedStep, FinishStep, NestedView};
use crate::package::rpm::{declared, DeclaredCompressor, RpmView};
use crate::package::zip_reader::{
    budget_findings, coding_findings, declared_total, name_findings, ZipEntryView,
};
use crate::path::{safe_archive_path, PathRules};

verus! {

// ---------------------------------------------------------------------------
// Debian packages
// ---------------------------------------------------------------------------

/// The archive of a role may have any ending behind a dot; other names do not count.
pub proof fn law_archives_may_have_endings(ending: Seq<u8>)
    ensures
        role_of("debian-binary".spec_bytes()) == Role::DebianBinary,
        role_of("control.tar".spec_bytes()) == Role::Control,
        role_of("data.tar".spec_bytes()) == Role::Data,
        role_of("control.tar.".spec_bytes() + ending) == Role::Control,
        role_of("data.tar.".spec_bytes() + ending) == Role::Data,
{
    reveal_strlit("debian-binary");
    reveal_strlit("control.tar");
    reveal_strlit("control.tar.");
    reveal_strlit("data.tar");
    reveal_strlit("data.tar.");
    lemma_ascii("debian-binary");
    lemma_ascii("control.tar");
    lemma_ascii("control.tar.");
    lemma_ascii("data.tar");
    lemma_ascii("data.tar.");
    let control = "control.tar.".spec_bytes() + ending;
    let data = "data.tar.".spec_bytes() + ending;
    assert(control[0] == 0x63);
    assert(data[0] == 0x64 && data[1] == 0x61);
    assert("debian-binary".spec_bytes()[0] == 0x64);
    assert("debian-binary".spec_bytes()[1] == 0x65);
    assert("control.tar".spec_bytes()[0] == 0x63);
    assert("data.tar".spec_bytes()[0] == 0x64);
    assert("data.tar".spec_bytes()[1] == 0x61);
    assert("control.tar.".spec_bytes()[0] == 0x63);
    assert(control.take("control.tar.".spec_bytes().len() as int) =~= "control.tar.".spec_bytes());
    assert(data.take("data.tar.".spec_bytes().len() as int) =~= "data.tar.".spec_bytes());
    assert(data.len() >= 12 ==> data.take(12)[0] == 0x64);
    assert("data.tar".spec_bytes().len() < 12);
}

/// A package of a version stamp, a control archive and a data archive, in this order
/// and with safe names, is reported for nothing, and its members are looked into.
pub proof fn law_orderly_packages_are_reported_for_nothing(
    state: DebView,
    stamp: ArchivePath,
    control: ArchivePath,
    data: ArchivePath,
)
    requires
        state.at_start,
        state.container_readable,
        !state.seen_debian && !state.seen_control && !state.seen_data,
        state.last_rank < 0,
        role_of(stamp.bytes@) == Role::DebianBinary,
        role_of(control.bytes@) == Role::Control,
        role_of(data.bytes@) == Role::Data,
        safe_archive_path(stamp, state.rules) is Some,
        safe_archive_path(control, state.rules) is Some,
        safe_archive_path(data, state.rules) is Some,
    ensures
        ({
            let one = state.begun(stamp);
            let two = one.0.begun(control);
            let three = two.0.begun(data);
            &&& one.1 == MemberPlan::Version
            &&& two.1 == MemberPlan::Nested(Role::Control)
            &&& three.1 == MemberPlan::Nested(Role::Data)
            &&& three.0.findings == state.findings
            &&& three.0.missing_findings().len() == 0
            &&& three.0.debian_version_ok == state.debian_version_ok
        }),
{
    let one = state.begun(stamp).0;
    let two = one.begun(control).0;
    let three = two.begun(data).0;
    assert(one.findings =~= state.findings);
    assert(two.findings =~= state.findings);
    assert(three.findings =~= state.findings);
}

/// A member that stands a second time, one before its place, an unknown one and one
/// with an unsafe name are each reported, under their names.
pub proof fn law_disorder_is_reported(state: DebView, path: ArchivePath)
    requires
        !state.at_start,
        state.last_rank <= 2,
    ensures
        ({
            let (next, plan) = state.begun(path);
            let role = role_of(path.bytes@);
            let is_new = |code: PackageFindingCode|
                next.findings.len() > state.findings.len() && next.findings.last().code == code
                    && next.findings.last().path == Some(path.bytes@);
            &&& safe_archive_path(path, state.rules) is None ==> is_new(
                PackageFindingCode::UnsafeMemberName,
            ) && plan == MemberPlan::Skip
            &&& safe_archive_path(path, state.rules) is Some && role == Role::Unknown ==> is_new(
                PackageFindingCode::UnknownMember,
            ) && plan == MemberPlan::Skip
            &&& safe_archive_path(path, state.rules) is Some && role == Role::Control
                && state.last_rank == 2 ==> is_new(PackageFindingCode::UnexpectedMemberOrder)
            &&& safe_archive_path(path, state.rules) is Some && role == Role::Data
                && state.seen_data ==> is_new(PackageFindingCode::DuplicateMember)
        }),
{
    let (next, plan) = state.begun(path);
    let role = role_of(path.bytes@);
    if safe_archive_path(path, state.rules) is Some {
        let said = state.role_findings(role, path.bytes@);
        assert(next.findings =~= state.findings + said);
        if said.len() > 0 {
            assert(next.findings.last() == said.last());
        }
    }
}

/// A package that ends without a member of its profile is reported for it.
pub proof fn law_missing_members_are_reported(state: DebView)
    requires
        state.container_readable,
        !state.debian_reported,
    ensures
        state.missing_findings().len() == (if state.seen_debian {
            0int
        } else {
            1
        }) + (if state.seen_control {
            0int
        } else {
            1
        }) + (if state.seen_data {
            0int
        } else {
            1
        }),
        forall|i: int|
            0 <= i < state.missing_findings().len() ==> (#[trigger] state.missing_findings()[i]).code
                == PackageFindingCode::MissingDebianBinary || state.missing_findings()[i].code
                == PackageFindingCode::MissingRequiredMember,
        state.missing_findings().len() > 0 ==> (state.missing_findings()[0].code
            == PackageFindingCode::MissingDebianBinary <==> !state.seen_debian),
{
}

/// A version stamp that begins with `2.` and holds a line end is supported; one that
/// is shorter than that, begins otherwise or holds no line end is not.
pub proof fn law_version_stamps(minor: Seq<u8>, more: Seq<u8>, body: Seq<u8>)
    ensures
        supported_version(seq![0x32u8, 0x2e] + minor + seq![0x0au8] + more),
        body.len() < 3 ==> !supported_version(body),
        body.len() > 0 && body[0] != 0x32 ==> !supported_version(body),
        !body.contains(0x0a) ==> !supported_version(body),
{
    reveal_strlit("2.");
    lemma_ascii("2.");
    let stamp = seq![0x32u8, 0x2e] + minor + seq![0x0au8] + more;
    assert(stamp.take(2) =~= "2.".spec_bytes());
    assert(stamp[2 + minor.len() as int] == 0x0a);
    if body.len() >= 2 {
        assert(body.take(2)[0] == body[0]);
        assert(body.take(2)[1] == body[1]);
    }
    if body.len() == 2 && supported_version(body) {
        let i = choose|i: int| 0 <= i < body.len() && body[i] == 0x0a;
        assert("2.".spec_bytes()[i] == body.take(2)[i]);
    }
}

/// The budget of a container is never below four gibibytes, and otherwise the one that
/// was asked for; no other budget changes.
pub proof fn law_containers_have_a_floor(limits: Limits)
    ensures
        outer_limits(limits).decoded_total matches Some(total) && {
            &&& total >= 0x1_0000_0000
            &&& limits.decoded_total matches Some(asked) ==> asked >= 0x1_0000_0000 ==> total
                == asked
            &&& limits.decoded_total matches Some(asked) ==> asked < 0x1_0000_0000 ==> total
                == 0x1_0000_0000
            &&& limits.decoded_total is None ==> total == 0x1_0000_0000
        },
        outer_limits(limits) == (Limits {
            decoded_total: outer_limits(limits).decoded_total,
            ..limits
        }),
{
}

// ---------------------------------------------------------------------------
// Members of ZIP containers
// ---------------------------------------------------------------------------

/// A member is reported for how it is stored unless it is stored as it is or deflated,
/// and not encrypted: by the lowest bit of its flags, or by its method.
pub proof fn law_stored_and_deflated_members_pass(label: Seq<char>, entry: ZipEntryView)
    ensures
        coding_findings(label, entry).len() == 0 <==> (entry.method == 0 || entry.method == 8)
            && entry.flags % 2 == 0,
        coding_findings(label, entry).len() > 0 ==> {
            let finding = coding_findings(label, entry)[0];
            &&& finding.path == Some(entry.name)
            &&& finding.code == PackageFindingCode::UnexpectedEncryption <==> entry.flags % 2 == 1
                || entry.method == 99
        },
{
}

/// A member is reported for its name exactly if it would not be unpacked inside, or to
/// where an earlier one is; the first at a place never is.
pub proof fn law_names_are_reported_once_taken(
    label: Seq<char>,
    entries: Seq<ZipEntryView>,
    at: int,
    rules: PathRules,
)
    requires
        0 <= at < entries.len(),
    ensures
        name_findings(label, entries, at, rules).len() == 0 <==> entries[at].destination(rules)
            is Some && forall|i: int|
            0 <= i < at ==> (#[trigger] entries[i]).destination(rules) != entries[at].destination(
                rules,
            ),
        at == 0 && entries[at].destination(rules) is Some ==> name_findings(
            label,
            entries,
            at,
            rules,
        ).len() == 0,
{
}

/// The declared sizes are summed up, and the member with which the sum first goes over
/// the budget is where it is reported.
pub proof fn law_declared_sizes_add_up(
    label: Seq<char>,
    entries: Seq<ZipEntryView>,
    at: int,
    budget: u64,
)
    requires
        0 <= at < entries.len(),
        declared_total(entries, at as nat) + entries[at].uncompressed_size <= u64::MAX,
    ensures
        declared_total(entries, (at + 1) as nat) == declared_total(entries, at as nat)
            + entries[at].uncompressed_size,
        declared_total(entries, 0) == 0,
        budget_findings(label, entries, at, Some(budget)).len() > 0 <==> declared_total(
            entries,
            at as nat,
        ) <= budget < declared_total(entries, at as nat) + entries[at].uncompressed_size,
        budget_findings(label, entries, at, None).len() == 0,
{
}

// ---------------------------------------------------------------------------
// Nested archives
// ---------------------------------------------------------------------------

/// What decides the filter of a nested archive is its first six bytes, however they
/// are cut into chunks.
pub proof fn law_prefixes_are_gathered(stream: NestedView, first: Seq<u8>, second: Seq<u8>)
    requires
        !stream.is_terminal(),
        !stream.decided,
        stream.prefix.len() + first.len() < 6,
    ensures
        ({
            let one = stream.fed(first);
            let two = one.0.fed(second);
            let both = stream.fed(first + second);
            &&& one.1 == FeedStep::Wait
            &&& two.0.prefix == both.0.prefix
            &&& both.1 is Wait <==> two.1 is Wait
            &&& both.1 is Decide <==> stream.prefix.len() + first.len() + second.len() >= 6
            &&& both.0.prefix == if stream.prefix.len() + first.len() + second.len() < 6 {
                stream.prefix + first + second
            } else {
                (stream.prefix + first + second).take(6)
            }
        }),
{
    let one = stream.fed(first).0;
    let two = one.fed(second).0;
    let both = stream.fed(first + second).0;
    let whole = stream.prefix + first + second;
    assert(first.take(first.len() as int) =~= first);
    if whole.len() < 6 {
        assert(second.take(second.len() as int) =~= second);
        assert((first + second).take((first + second).len() as int) =~= first + second);
        assert(two.prefix =~= whole);
        assert(both.prefix =~= whole);
    } else {
        assert(two.prefix =~= whole.take(6));
        assert(both.prefix =~= whole.take(6));
    }
}

/// A filter that cannot be decoded is reported once and skips the member; any other
/// begins to be decoded with nothing reported.
pub proof fn law_filters_are_settled(stream: NestedView, matched: Option<FilterId>, available: bool)
    ensures
        stream.settled(matched, available).0.decided,
        stream.settled(matched, available).1.len() == if matched is Some && !available {
            1int
        } else {
            0
        },
        matched is Some && !available ==> stream.settled(matched, available).0.skip && stream.settled(
            matched,
            available,
        ).1[0].code == PackageFindingCode::UnsupportedCompression,
        !(matched is Some && !available) ==> stream.settled(matched, available).0.skip
            == stream.skip,
        matched is Some ==> stream.settled(matched, available).0.filter == matched,
        matched is None ==> stream.settled(matched, available).0.filter == stream.filter,
{
}

/// An entry of a nested archive is reported the second time it comes, and not the
/// first; one that stands for the root never is.
pub proof fn law_second_entries_are_reported(stream: NestedView, path: ArchivePath)
    requires
        safe_archive_path(path, stream.rules) is Some,
        path.bytes@.len() > 2,
    ensures
        !stream.seen.contains(safe_archive_path(path, stream.rules)->0) ==> stream.entry_findings(
            path,
        ).len() == 0,
        stream.after_entry(path).entry_findings(path).len() == 1,
        stream.after_entry(path).entry_findings(path).len() == 1
            ==> stream.after_entry(path).entry_findings(path)[0].code
            == PackageFindingCode::DuplicateEntryPath,
{
    reveal_strlit(".");
    reveal_strlit("./");
    lemma_ascii(".");
    lemma_ascii("./");
}

/// The end of a stream closes the decoder exactly if its filter is decided and nothing
/// has ended it before; a member that then has nothing more to say is truncated.
pub proof fn law_streams_end_once(stream: NestedView)
    ensures
        stream.at_end() == FinishStep::Close <==> stream.decided && !stream.is_terminal(),
        stream.at_end() == FinishStep::Decide <==> !stream.decided && !stream.skip
            && !stream.failed,
        stream.closing_findings().len() == 0 <==> stream.done || stream.failed,
        stream.closing_findings().len() > 0 ==> stream.closing_findings()[0].code
            == PackageFindingCode::TruncatedMember,
{
}

/// An error tells what it is: over a budget, not to be decoded, cut off at the end, or
/// broken.
pub proof fn law_errors_tell_what_they_are(kind: ErrorKind, after_finish: bool)
    ensures
        nested_code(kind, after_finish) == PackageFindingCode::DecompressionBomb <==> kind
            == ErrorKind::Limit,
        nested_code(kind, after_finish) == PackageFindingCode::UnsupportedCompression <==> kind
            == ErrorKind::Capability,
        nested_code(kind, after_finish) == PackageFindingCode::TruncatedMember <==> kind
            == ErrorKind::Malformed && after_finish,
{
}

// ---------------------------------------------------------------------------
// RPM packages
// ---------------------------------------------------------------------------

/// A payload is reported for its format exactly if the main header does not declare
/// `cpio`; what it declares as compressor is kept, and nothing else changes.
pub proof fn law_payload_formats_are_held(state: RpmView, quoted: Seq<char>)
    ensures
        ({
            let next = state.at_payload(quoted);
            &&& next.format_ok <==> next.findings == state.findings
            &&& next.format_ok <==> state.tag(1124) == Some("cpio".spec_bytes())
            &&& !next.format_ok ==> next.findings.len() == state.findings.len() + 1
                && next.findings.last().code == PackageFindingCode::PayloadFormatMismatch
            &&& next.payload_compressor == state.tag(1125)
            &&& next.stage == state.stage
            &&& next.container_readable == state.container_readable
        }),
{
    let next = state.at_payload(quoted);
    let said = state.format_findings(quoted);
    assert(next.findings == state.findings + said);
    if said.len() == 0 {
        assert(next.findings =~= state.findings);
    } else {
        assert(next.findings.len() == state.findings.len() + said.len());
        assert(next.findings.last() == said.last());
    }
}

/// A payload is reported for its filter exactly if the filter was decided, a known one
/// was declared, and they are not the same; raw payloads included.
pub proof fn law_payload_filters_are_held(
    state: RpmView,
    decided: bool,
    filter: Option<FilterId>,
    expected: Option<FilterId>,
)
    ensures
        declared(state.payload_compressor) == DeclaredCompressor::Known(expected) ==> (
        state.filter_findings(decided, filter).len() > 0 <==> decided && filter != expected),
        declared(state.payload_compressor) is Unknown ==> state.filter_findings(
            decided,
            filter,
        ).len() == 0,
{
}

} // verus!
