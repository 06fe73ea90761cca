use libarchive_oxide::builtin::BuiltinFormatProviders;
use libarchive_oxide::chain::{NoCodecProviders, ProviderSet};
use libarchive_oxide::entry::{ArchivePath, PathEncoding};
use libarchive_oxide::error::ErrorKind;
use libarchive_oxide::filtered::detect::FilterId;
use libarchive_oxide::limits::Limits;
use libarchive_oxide::package::app_profile::{
    describe_apk, find_footer, find_subslice, is_ipa_info_plist, read_footer,
    scan_apk_id_value_pairs, AppPackageValidator, AppSignatureReport, ReadSigningBlock,
};
use libarchive_oxide::package::deb::{
    DebState, DebValidator, DebianBinaryMember, MemberPlan, Role,
};
use libarchive_oxide::package::finding::{PackageFinding, PackageFindingCode, Severity};
use libarchive_oxide::package::nested::{FeedStep, FinishStep, NestedStream, Subject};
use libarchive_oxide::package::rpm::{
    declared_filter, extract_main_tags, extract_string, DeclaredCompressor, RpmState,
    RpmValidator,
};
use libarchive_oxide::package::zip_profile::{
    find_body, is_media_type, is_root_nuspec, ZipPackageValidator,
};
use libarchive_oxide::path::PathRules;
use libarchive_oxide::package::zip_reader::{
    read_end_record, zip64_sizes, DirectoryReader, ZipEntry,
};

fn member(name: &str) -> ZipEntry {
    ZipEntry {
        name: name.as_bytes().to_vec(),
        encoding: PathEncoding::Utf8,
        method: 0,
        flags: 0,
        uncompressed_size: 20,
        local_offset: 0,
    }
}

/// A stored archive with empty members.
fn zip(names: &[&str]) -> Vec<u8> {
    let mut bytes = Vec::new();
    let mut central = Vec::new();
    for name in names {
        let at = bytes.len() as u32;
        bytes.extend_from_slice(b"PK\x03\x04");
        bytes.extend_from_slice(&[0; 22]);
        bytes.extend_from_slice(&(name.len() as u16).to_le_bytes());
        bytes.extend_from_slice(&[0; 2]);
        bytes.extend_from_slice(name.as_bytes());
        central.extend_from_slice(b"PK\x01\x02");
        central.extend_from_slice(&[0; 24]);
        central.extend_from_slice(&(name.len() as u16).to_le_bytes());
        central.extend_from_slice(&[0; 12]);
        central.extend_from_slice(&at.to_le_bytes());
        central.extend_from_slice(name.as_bytes());
    }
    let start = bytes.len() as u32;
    bytes.extend_from_slice(&central);
    bytes.extend_from_slice(b"PK\x05\x06");
    bytes.extend_from_slice(&[0; 4]);
    bytes.extend_from_slice(&(names.len() as u16).to_le_bytes());
    bytes.extend_from_slice(&(names.len() as u16).to_le_bytes());
    bytes.extend_from_slice(&(central.len() as u32).to_le_bytes());
    bytes.extend_from_slice(&start.to_le_bytes());
    bytes.extend_from_slice(&[0; 2]);
    bytes
}

fn directory(bytes: &[u8], limits: Limits) -> Result<Vec<ZipEntry>, String> {
    let mut reader = DirectoryReader::new(bytes.len() as u64, limits);
    let mut at = 0usize;
    while let Some(request) = reader.request() {
        if let Some(place) = request.at {
            at = place as usize;
        }
        if request.length == 0 {
            reader.supply(&[]).map_err(|text| text.to_string())?;
            continue;
        }
        let end = at + request.length;
        if end > bytes.len() {
            return Err(format!("{}end", reader.failure()));
        }
        reader.supply(&bytes[at..end]).map_err(|text| text.to_string())?;
        at = end;
    }
    Ok(reader.entries)
}

fn codes(findings: &[PackageFinding]) -> Vec<PackageFindingCode> {
    findings.iter().map(|finding| finding.code()).collect()
}

#[test]
fn findings_print_their_parts() {
    let finding = PackageFinding::new(
        "deb",
        Some(b"a\xffb".to_vec()),
        PackageFindingCode::UnknownMember,
        "detail",
    );
    assert_eq!(finding.code().as_str(), "unknown-member");
    let text = finding.message();
    assert!(text.contains("a\u{fffd}b") && text.contains("detail") && text.contains("deb"));
    let loud = finding.with_severity(Severity::Error);
    assert_eq!(loud.severity(), Severity::Error);
    assert_eq!(loud.detail(), "detail");
}

#[test]
fn unfinished_characters_are_replaced_once() {
    let subject = Subject::member(b"a\xf0\x9f\x92b\xff\xed\xa0c\xc3\xa9");
    assert_eq!(
        subject.repeated,
        "entry path repeats within a\u{fffd}b\u{fffd}\u{fffd}\u{fffd}c\u{e9}"
    );
}

#[test]
fn directories_list_their_members() {
    let bytes = zip(&["a", "dir/b"]);
    let entries = directory(&bytes, Limits::unlimited()).unwrap();
    assert_eq!(entries.len(), 2);
    assert_eq!(entries[1].name, b"dir/b");
    assert_eq!(entries[1].local_offset, 31);
    assert!(!entries[0].is_encrypted());
    let mut limits = Limits::unlimited();
    limits.entries = Some(1);
    assert_eq!(directory(&bytes, limits).unwrap_err(), "central-directory entry count exceeds limit");
    let mut limits = Limits::unlimited();
    limits.path_bytes = Some(3);
    assert_eq!(directory(&bytes, limits).unwrap_err(), "ZIP pathname exceeds configured limit");
    assert_eq!(
        directory(b"not an archive at all, no", Limits::unlimited()).unwrap_err(),
        "end-of-central-directory record not found"
    );
    let mut bad = bytes.clone();
    bad[31 + 35] = 0;
    assert_eq!(directory(&bad, Limits::unlimited()).unwrap_err(), "bad central-directory signature");
}

#[test]
fn empty_directories_have_a_place() {
    let bytes = zip(&[]);
    let mut reader = DirectoryReader::new(bytes.len() as u64, Limits::unlimited());
    assert!(reader.supply(&bytes).is_ok());
    let request = reader.request().unwrap();
    assert_eq!((request.at, request.length), (Some(0), 0));
    assert_eq!(reader.failure(), "cannot seek to central directory: ");
    assert!(reader.supply(&[]).is_ok());
    assert!(reader.request().is_none());
}

#[test]
fn end_records_are_found_behind_comments() {
    let mut bytes = zip(&[]);
    let last = bytes.len() - 2;
    bytes[last] = 3;
    bytes.extend_from_slice(b"abc");
    let record = read_end_record(&bytes, 0).unwrap();
    assert_eq!((record.count, record.central_offset), (0, 0));
    let mut extra = vec![1, 0, 16, 0];
    extra.extend_from_slice(&9u64.to_le_bytes());
    extra.extend_from_slice(&8u64.to_le_bytes());
    assert_eq!(zip64_sizes(&extra, u32::MAX, 0, u32::MAX).unwrap(), (9, 8));
    assert_eq!(zip64_sizes(&extra[..10], u32::MAX, 0, u32::MAX).unwrap_err(), "truncated ZIP extra field");
    assert_eq!(zip64_sizes(&[], 5, 6, 7).unwrap(), (5, 7));
}

#[test]
fn jars_need_a_manifest() {
    let validator = ZipPackageValidator::jar(Limits::unlimited());
    let good = validator.validate(Ok(vec![member("META-INF/MANIFEST.MF"), member("A.class")]), false, PathRules::Unix);
    assert!(good.container_readable() && good.profile_valid());
    assert!(good.findings().is_empty());
    let bad = validator.validate(Ok(vec![member("../x"), member("a"), member("a")]), false, PathRules::Unix);
    assert!(!bad.profile_valid());
    assert!(bad.has_code(PackageFindingCode::MissingRequiredMember));
    assert!(bad.has_code(PackageFindingCode::UnsafeEntryPath));
    assert!(bad.has_code(PackageFindingCode::DuplicateEntryPath));
    let broken = validator.validate(Err("broken".to_string()), false, PathRules::Unix);
    assert!(!broken.container_readable());
    assert_eq!(codes(broken.findings()), [PackageFindingCode::ContainerUnreadable]);
}

#[test]
fn epubs_begin_with_a_stored_media_type() {
    let validator = ZipPackageValidator::epub(Limits::unlimited());
    let list = || vec![member("mimetype"), member("META-INF/container.xml")];
    assert!(validator.validate(Ok(list()), true, PathRules::Unix).profile_valid());
    let wrong = validator.validate(Ok(list()), false, PathRules::Unix);
    assert!(wrong.has_code(PackageFindingCode::MimetypeInvalidContent));
    let mut late = list();
    late[0].local_offset = 50;
    assert!(validator.validate(Ok(late), true, PathRules::Unix).has_code(PackageFindingCode::MimetypeNotFirst));
    let mut packed = list();
    packed[0].method = 8;
    assert!(validator.validate(Ok(packed), true, PathRules::Unix).has_code(PackageFindingCode::MimetypeNotStored));
    assert!(is_media_type(b"application/epub+zip"));
    assert!(!is_media_type(b"application/epub+zip\n"));
    let mut header = [0u8; 30];
    header[..4].copy_from_slice(b"PK\x03\x04");
    header[26] = 8;
    header[28] = 2;
    assert_eq!(find_body(100, &header), Some(140));
}

#[test]
fn nuget_and_wheel_packages_need_their_manifests() {
    let nuget = ZipPackageValidator::nuget(Limits::unlimited());
    assert!(nuget
        .validate(Ok(vec![member("[Content_Types].xml"), member("x.nuspec")]), false, PathRules::Unix)
        .profile_valid());
    assert!(!nuget.validate(Ok(vec![member("x.nuspec")]), false, PathRules::Unix).profile_valid());
    assert!(is_root_nuspec(b"a.nuspec") && !is_root_nuspec(b"d/a.nuspec"));
    let wheel = ZipPackageValidator::wheel(Limits::unlimited());
    let names = ["p.dist-info/METADATA", "p.dist-info/WHEEL", "p.dist-info/RECORD"];
    assert!(wheel.validate(Ok(names.iter().map(|name| member(name)).collect()), false, PathRules::Unix).profile_valid());
    assert!(!wheel.validate(Ok(vec![member(names[0])]), false, PathRules::Unix).profile_valid());
}

#[test]
fn budgets_and_encryption_are_reported() {
    let mut limits = Limits::unlimited();
    limits.decoded_total = Some(10);
    let mut list = vec![member("META-INF/MANIFEST.MF")];
    list[0].flags = 1;
    let validation = ZipPackageValidator::jar(limits).validate(Ok(list), false, PathRules::Unix);
    assert!(validation.has_code(PackageFindingCode::DecompressionBomb));
    assert!(validation.has_code(PackageFindingCode::UnexpectedEncryption));
    let mut list = vec![member("META-INF/MANIFEST.MF")];
    list[0].method = 77;
    let validation = ZipPackageValidator::jar(Limits::unlimited()).validate(Ok(list), false, PathRules::Unix);
    assert!(validation.has_code(PackageFindingCode::UnsupportedCompression));
}

fn footer(size: u64) -> [u8; 24] {
    let mut bytes = [0u8; 24];
    bytes[..8].copy_from_slice(&size.to_le_bytes());
    bytes[8..].copy_from_slice(b"APK Sig Block 42");
    bytes
}

#[test]
fn android_packages_report_their_signatures() {
    assert_eq!(find_footer(23), None);
    assert_eq!(find_footer(100), Some(76));
    let block = read_footer(100, &footer(44), Limits::unlimited()).unwrap();
    assert!(!block.is_cut);
    assert!(block.region.is_some());
    let mut pairs = Vec::new();
    pairs.extend_from_slice(&6u64.to_le_bytes());
    pairs.extend_from_slice(&0x7109_871au32.to_le_bytes());
    pairs.extend_from_slice(&[0; 2]);
    assert_eq!(scan_apk_id_value_pairs(&pairs), (true, false));
    let validator = AppPackageValidator::apk(Limits::unlimited());
    let signed = validator.validate(
        Ok(vec![member("AndroidManifest.xml"), member("META-INF/CERT.RSA")]),
        &ReadSigningBlock::present(false, Some(pairs)),
        PathRules::Unix,
    );
    assert!(signed.profile_valid());
    assert!(signed.signatures().apk_v2() && !signed.signatures().apk_v3());
    assert!(signed.has_code(PackageFindingCode::SigningSchemeDetected));
    let bare = validator.validate(Ok(vec![member("AndroidManifest.xml")]), &ReadSigningBlock::absent(), PathRules::Unix);
    assert!(bare.profile_valid());
    assert!(bare.has_code(PackageFindingCode::UnsignedPackage));
    assert!(!bare.signatures().any());
    let mut report = AppSignatureReport::none();
    report.apk_v1 = true;
    assert!(describe_apk(report).starts_with("detected APK signing schemes: "));
}

#[test]
fn other_application_packages_need_their_members() {
    let ipa = AppPackageValidator::ipa(Limits::unlimited());
    assert!(ipa
        .validate(Ok(vec![member("Payload/X.app/Info.plist")]), &ReadSigningBlock::absent(), PathRules::Unix)
        .profile_valid());
    assert!(!ipa.validate(Ok(vec![member("Info.plist")]), &ReadSigningBlock::absent(), PathRules::Unix).profile_valid());
    assert!(is_ipa_info_plist(b"Payload/X.app/Info.plist"));
    assert!(!is_ipa_info_plist(b"Payload/X.app/deep/Info.plist"));
    let msix = AppPackageValidator::msix(Limits::unlimited());
    let names = ["AppxManifest.xml", "AppxBlockMap.xml", "[Content_Types].xml", "AppxSignature.p7x"];
    let found = msix.validate(
        Ok(names.iter().map(|name| member(name)).collect()),
        &ReadSigningBlock::absent(),
        PathRules::Unix,
    );
    assert!(found.profile_valid() && found.signatures().embedded_signature());
    assert_eq!(find_subslice(b"abcabd", b"abd"), Some(3));
    assert_eq!(find_subslice(b"abc", b"x"), None);
}

fn walk(names: &[&str]) -> DebState {
    let mut state = DebState::new(PathRules::Unix);
    for name in names {
        match state.begin_member(&ArchivePath::from_bytes(name.as_bytes())) {
            MemberPlan::Skip => {},
            MemberPlan::Version => state.finish_version(b"2.0\n"),
            MemberPlan::Nested(role) => state.finish_nested(role, Some(FilterId::Gzip)),
        }
    }
    state
}

#[test]
fn debian_packages_hold_three_members_in_order() {
    let good = walk(&["debian-binary", "control.tar.gz", "data.tar.xz"]).finalize();
    assert!(good.container_readable() && good.profile_valid());
    assert_eq!(good.data_compression(), Some(FilterId::Gzip));
    let swapped = walk(&["debian-binary", "data.tar", "control.tar"]).finalize();
    assert!(swapped.has_code(PackageFindingCode::UnexpectedMemberOrder));
    let short = walk(&["debian-binary", "control.tar"]).finalize();
    assert!(!short.profile_valid());
    assert!(short.has_code(PackageFindingCode::MissingRequiredMember));
    let late = walk(&["control.tar", "debian-binary", "data.tar"]).finalize();
    assert!(late.has_code(PackageFindingCode::MissingDebianBinary));
    let twice = walk(&["debian-binary", "control.tar", "control.tar", "data.tar"]).finalize();
    assert!(twice.has_code(PackageFindingCode::DuplicateMember));
    let odd = walk(&["debian-binary", "readme", "control.tar", "data.tar"]).finalize();
    assert!(odd.has_code(PackageFindingCode::UnknownMember));
    let mut state = DebState::new(PathRules::Unix);
    state.begin_member(&ArchivePath::from_bytes(b"debian-binary"));
    state.finish_version(b"3.0\n");
    assert!(state.finalize().has_code(PackageFindingCode::InvalidVersionStamp));
    let mut state = DebState::new(PathRules::Unix);
    state.break_container("bad header");
    let broken = state.finalize();
    assert!(!broken.container_readable());
    assert_eq!(broken.findings()[0].detail(), "cannot read .deb ar container: bad header");
}

#[test]
fn debian_roles_follow_names() {
    assert_eq!(Role::classify(b"data.tar.zst"), Role::Data);
    assert_eq!(Role::classify(b"control.tar"), Role::Control);
    assert_eq!(Role::classify(b"data.tarball"), Role::Unknown);
    assert!(Role::DebianBinary.rank() < Role::Control.rank());
    let mut member = DebianBinaryMember::new();
    member.feed(&[b'x'; 100]);
    assert_eq!(member.body.len(), 64);
    let mut limits = Limits::unlimited();
    limits.decoded_total = Some(5);
    assert_eq!(DebValidator::new(limits).container_limits().decoded_total, Some(4_294_967_296));
    limits.decoded_total = Some(u64::MAX);
    assert_eq!(DebValidator::new(limits).container_limits().decoded_total, Some(u64::MAX));
}

#[test]
fn validators_decide_by_their_providers() {
    let validator = RpmValidator::new(Limits::unlimited());
    assert_eq!(validator.with_limits(Limits::unlimited()).limits().decoded_total, None);
    let mut findings = Vec::new();
    let mut stream = NestedStream::new(Subject::payload(), PathRules::Unix);
    stream.feed(b"\x1f\x8b\x08\0\0\0");
    let first = stream.decide_by(&validator.providers, &mut findings).unwrap();
    assert_eq!(first, b"\x1f\x8b\x08\0\0\0");
    assert!(findings.is_empty());

    let providers = ProviderSet::from_chains(BuiltinFormatProviders, NoCodecProviders);
    let bare = validator.with_codec_providers(providers);
    let mut stream = NestedStream::new(Subject::payload(), PathRules::Unix);
    stream.feed(b"\x1f\x8b\x08\0\0\0");
    assert!(stream.decide_by(&bare.providers, &mut findings).is_none());
    assert_eq!(codes(&findings), [PackageFindingCode::UnsupportedCompression]);
    let mut stream = NestedStream::new(Subject::payload(), PathRules::Unix);
    stream.feed(b"070701");
    assert!(stream.decide_by(&bare.providers, &mut findings).is_some());
}

#[test]
fn nested_streams_are_probed_and_checked() {
    let mut findings = Vec::new();
    let mut stream = NestedStream::new(Subject::member(b"data.tar.gz"), PathRules::Unix);
    assert!(matches!(stream.feed(b"\x1f\x8b"), FeedStep::Wait));
    assert!(matches!(stream.feed(b"\x08\0\0\0rest"), FeedStep::Decide { taken: 4 }));
    let first = stream.decide(Some(FilterId::Gzip), true, &mut findings).unwrap();
    assert_eq!(first, b"\x1f\x8b\x08\0\0\0");
    assert!(matches!(stream.feed(b"more"), FeedStep::Decode));
    stream.check_entry(&ArchivePath::from_bytes(b"a"), &mut findings);
    assert!(findings.is_empty());
    stream.check_entry(&ArchivePath::from_bytes(b"a"), &mut findings);
    stream.check_entry(&ArchivePath::from_bytes(b"../b"), &mut findings);
    assert_eq!(
        codes(&findings),
        [PackageFindingCode::DuplicateEntryPath, PackageFindingCode::UnsafeEntryPath]
    );
    stream.complete();
    assert!(matches!(stream.finish(), FinishStep::Close | FinishStep::Nothing));
    stream.close(&mut findings);
    assert_eq!(findings.len(), 2);

    let mut findings = Vec::new();
    let mut stream = NestedStream::new(Subject::payload(), PathRules::Unix);
    assert!(matches!(stream.feed(b"070701"), FeedStep::Decide { .. }));
    assert!(stream.decide(None, true, &mut findings).is_some());
    stream.record_error(ErrorKind::Limit, "too much", false, &mut findings);
    assert_eq!(codes(&findings), [PackageFindingCode::DecompressionBomb]);
    assert!(stream.is_terminal());
    stream.close(&mut findings);
    assert_eq!(findings.len(), 1);

    let mut findings = Vec::new();
    let mut stream = NestedStream::new(Subject::payload(), PathRules::Unix);
    stream.feed(b"\x1f\x9dxxxx");
    assert!(stream.decide(Some(FilterId::Compress), false, &mut findings).is_none());
    assert_eq!(codes(&findings), [PackageFindingCode::UnsupportedCompression]);
}

fn rpm_header(tags: &[(u32, &str)]) -> Vec<u8> {
    let mut index = Vec::new();
    let mut store = Vec::new();
    for (tag, text) in tags {
        index.extend_from_slice(&tag.to_be_bytes());
        index.extend_from_slice(&6u32.to_be_bytes());
        index.extend_from_slice(&(store.len() as u32).to_be_bytes());
        index.extend_from_slice(&1u32.to_be_bytes());
        store.extend_from_slice(text.as_bytes());
        store.push(0);
    }
    let mut bytes = vec![0x8e, 0xad, 0xe8, 1, 0, 0, 0, 0];
    bytes.extend_from_slice(&(tags.len() as u32).to_be_bytes());
    bytes.extend_from_slice(&(store.len() as u32).to_be_bytes());
    bytes.extend_from_slice(&index);
    bytes.extend_from_slice(&store);
    bytes
}

fn rpm(tags: &[(u32, &str)]) -> Vec<u8> {
    let mut bytes = vec![0u8; 96];
    bytes[..4].copy_from_slice(&[0xed, 0xab, 0xee, 0xdb]);
    bytes.extend_from_slice(&rpm_header(&[]));
    while bytes.len() % 8 != 0 {
        bytes.push(0);
    }
    bytes.extend_from_slice(&rpm_header(tags));
    bytes
}

fn read_rpm(bytes: &[u8], limits: Limits) -> RpmState {
    let mut state = RpmState::new(limits);
    let mut at = 0;
    while let Some(length) = state.request() {
        if at + length > bytes.len() {
            state.end_early();
            break;
        }
        state.supply(&bytes[at..at + length]);
        at += length;
    }
    state
}

#[test]
fn rpm_headers_lead_to_the_payload() {
    let mut state = read_rpm(&rpm(&[(1124, "cpio"), (1125, "gzip")]), Limits::unlimited());
    state.begin_payload();
    state.finish_payload(true, Some(FilterId::Gzip), true);
    let good = state.finalize();
    assert!(good.container_readable() && good.profile_valid());
    assert_eq!(good.payload_filter(), Some(FilterId::Gzip));
    assert_eq!(good.payload_compressor().unwrap(), b"gzip");
    let mut state = read_rpm(&rpm(&[(1124, "cpio"), (1125, "xz")]), Limits::unlimited());
    state.begin_payload();
    state.finish_payload(true, Some(FilterId::Gzip), true);
    assert!(state.finalize().has_code(PackageFindingCode::CompressorMismatch));
    let mut state = read_rpm(&rpm(&[(1124, "d\"rpm")]), Limits::unlimited());
    state.begin_payload();
    let odd = state.finalize();
    assert!(odd.has_code(PackageFindingCode::PayloadFormatMismatch));
    assert!(odd.findings()[0].detail().contains("\\\""));
}

#[test]
fn rpm_damage_is_reported() {
    let mut bytes = rpm(&[(1124, "cpio")]);
    let short = read_rpm(&bytes[..50], Limits::unlimited()).finalize();
    assert!(short.has_code(PackageFindingCode::InvalidLead));
    let cut = read_rpm(&bytes[..100], Limits::unlimited()).finalize();
    assert!(!cut.container_readable() || !cut.profile_valid());
    let mut limits = Limits::unlimited();
    limits.metadata_bytes = Some(3);
    let large = read_rpm(&bytes, limits).finalize();
    assert!(large.has_code(PackageFindingCode::HeaderTooLarge));
    bytes[0] = 0;
    let wrong = read_rpm(&bytes, Limits::unlimited()).finalize();
    assert!(wrong.has_code(PackageFindingCode::InvalidLead));
    assert_eq!(extract_string(b"ab\0cd", 0).unwrap(), b"ab");
    assert!(extract_string(b"ab", 0).is_none());
    assert!(extract_main_tags(&[], &[]).payload_format.is_none());
    assert!(matches!(declared_filter(Some(b"zstd")), DeclaredCompressor::Known(Some(FilterId::Zstd))));
    assert!(matches!(declared_filter(Some(b"odd")), DeclaredCompressor::Unknown));
}
