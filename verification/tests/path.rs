use libarchive_oxide::entry::{ArchivePath, EntryKind, PathEncoding};
use libarchive_oxide::path::{
    is_reserved_device_name, sanitize, sanitize_archive_path, sanitize_windows, utf16_to_utf8,
    DestinationClaims, DestinationKey, PathRules, WindowsPath,
};
use libarchive_oxide::path_set::{copy_path, PathSet};

fn joined(raw: &[u8]) -> Option<Vec<u8>> {
    sanitize(raw, PathRules::Unix).map(|path| path.to_bytes())
}

fn windows_key(text: &str) -> Option<DestinationKey> {
    let path: WindowsPath = sanitize_windows(text.as_bytes())?;
    Some(DestinationKey::of_windows_path(&path))
}

#[test]
fn accepts_normal_relative_paths() {
    assert_eq!(joined(b"usr/bin/app"), Some(b"usr/bin/app".to_vec()));
}

#[test]
fn rejects_absolute_paths() {
    assert_eq!(joined(b"/etc/passwd"), None);
    assert!(sanitize(br"\server\share", PathRules::Windows).is_none());
    assert_eq!(joined(b"./a/./b"), Some(b"a/b".to_vec()));
}

#[test]
fn rejects_traversal_and_drives() {
    assert_eq!(joined(b"../etc/passwd"), None);
    assert_eq!(joined(b"a/../../b"), None);
    assert!(sanitize(b"C:/Windows", PathRules::Windows).is_none());
    assert_eq!(joined(b""), None);
    assert_eq!(joined(b"/"), None);
}

#[test]
fn rejects_windows_reserved_device_names() {
    for bad in [
        &b"NUL"[..],
        b"nul",
        b"CON",
        b"aux.h",
        b"COM1",
        b"lpt9.txt",
        "COM\u{00b9}.log".as_bytes(),
        b"CONIN$",
        b"sub/NUL",
    ] {
        assert!(sanitize(bad, PathRules::Windows).is_none(), "should reject {bad:?}");
    }
    assert!(sanitize(b"com0", PathRules::Windows).is_some());
    assert!(sanitize(b"console", PathRules::Windows).is_some());
    assert!(sanitize(b"nulls.txt", PathRules::Windows).is_some());
}

#[test]
fn rejects_windows_trailing_aliases_ads_and_forbidden_characters() {
    for bad in [
        &b"name."[..],
        b"name ",
        b"nested/name. ",
        b"name:stream",
        b"name?",
        b"nested/a|b",
    ] {
        assert!(sanitize(bad, PathRules::Windows).is_none(), "should reject {bad:?}");
    }
}

#[test]
fn destination_identity_collapses_case_and_canonical_unicode() {
    let lower = DestinationKey::from_archive_path(&ArchivePath::from_utf8(b"folder/file"), PathRules::Windows)
        .expect("lowercase destination");
    let upper = DestinationKey::from_archive_path(&ArchivePath::from_utf8(b"FOLDER/FILE"), PathRules::Windows)
        .expect("uppercase destination");
    assert!(lower.same(&upper));

    let nfc =
        DestinationKey::from_archive_path(&ArchivePath::from_utf8("caf\u{00e9}.txt".as_bytes()), PathRules::Windows)
            .expect("NFC destination");
    let nfd =
        DestinationKey::from_archive_path(&ArchivePath::from_utf8("cafe\u{0301}.txt".as_bytes()), PathRules::Windows)
            .expect("NFD destination");
    assert!(nfc.same(&nfd));
}

#[test]
fn destination_identity_preserves_unix_case_and_bytes() {
    let lower = DestinationKey::from_archive_path(&ArchivePath::from_bytes(b"file"), PathRules::Unix)
        .expect("lowercase destination");
    let upper = DestinationKey::from_archive_path(&ArchivePath::from_bytes(b"FILE"), PathRules::Unix)
        .expect("uppercase destination");
    assert!(!lower.same(&upper));

    let composed =
        DestinationKey::from_archive_path(&ArchivePath::from_utf8("caf\u{00e9}.txt".as_bytes()), PathRules::Unix)
            .expect("composed destination");
    let decomposed =
        DestinationKey::from_archive_path(&ArchivePath::from_utf8("cafe\u{0301}.txt".as_bytes()), PathRules::Unix)
            .expect("decomposed destination");
    assert!(!composed.same(&decomposed));
}

#[test]
fn destination_claims_reject_non_directory_topology_conflicts() {
    let file = DestinationKey::from_archive_path(&ArchivePath::from_utf8(b"node"), PathRules::Unix)
        .expect("file destination");
    let child = DestinationKey::from_archive_path(&ArchivePath::from_utf8(b"node/child"), PathRules::Unix)
        .expect("child destination");
    let mut claims = DestinationClaims::new();
    assert!(claims.claim(&file, EntryKind::File));
    assert!(!claims.claim(&child, EntryKind::File));

    let parent = DestinationKey::from_archive_path(&ArchivePath::from_utf8(b"tree"), PathRules::Unix)
        .expect("parent destination");
    let descendant = DestinationKey::from_archive_path(&ArchivePath::from_utf8(b"tree/leaf"), PathRules::Unix)
        .expect("descendant destination");
    let mut reverse = DestinationClaims::new();
    assert!(reverse.claim(&descendant, EntryKind::File));
    assert!(!reverse.claim(&parent, EntryKind::File));

    let mut directories = DestinationClaims::new();
    assert!(directories.claim(&parent, EntryKind::Dir));
    assert!(directories.claim(&descendant, EntryKind::File));
}

#[test]
fn preserves_non_utf8_unix_names() {
    assert_eq!(joined(b"dir/\xff.bin").unwrap(), b"dir/\xff.bin");
}

#[test]
fn rejects_names_that_hold_a_zero_byte() {
    assert_eq!(joined(b"a\0b"), None);
}

#[test]
fn claims_a_destination_once() {
    let key = DestinationKey::from_archive_path(&ArchivePath::from_utf8(b"a/b"), PathRules::Unix).unwrap();
    let mut claims = DestinationClaims::new();
    assert!(claims.claim(&key, EntryKind::Dir));
    assert!(!claims.claim(&key, EntryKind::Dir));
}

#[test]
fn reads_wide_paths() {
    assert_eq!(utf16_to_utf8(&[0x61, 0, 0xe9, 0]), Some("a\u{e9}".as_bytes().to_vec()));
    assert_eq!(
        utf16_to_utf8(&[0x3d, 0xd8, 0x00, 0xde]),
        Some("\u{1f600}".as_bytes().to_vec())
    );
    assert_eq!(utf16_to_utf8(&[0x3d, 0xd8]), None);
    assert_eq!(utf16_to_utf8(&[0x61]), None);
    let wide = ArchivePath { bytes: vec![0x61, 0, 0x2f, 0, 0x62, 0], encoding: PathEncoding::Utf16Le };
    assert_eq!(sanitize_archive_path(&wide, PathRules::Unix).unwrap().to_bytes(), b"a/b");
}

#[test]
fn folds_characters_that_change_in_number() {
    let sharp: Vec<char> = "CONOUT$".chars().collect();
    assert!(is_reserved_device_name(&sharp));
    let left = windows_key("stra\u{df}e").unwrap();
    let right = windows_key("STRASSE").unwrap();
    assert!(left.same(&right));
}

#[test]
fn keeps_a_set_of_paths() {
    let mut set = PathSet::new();
    let path = sanitize(b"a/b", PathRules::Unix).unwrap();
    let copy = copy_path(&path);
    assert!(!set.contains(&path));
    assert!(set.insert(path));
    assert!(set.contains(&copy));
    assert!(!set.insert(copy));
}

#[test]
fn hosts_have_rules_of_their_own() {
    let windows = |raw: &[u8]| sanitize(raw, PathRules::Windows).map(|path| path.to_bytes());
    assert_eq!(windows(br"a\b/c").unwrap(), b"a/b/c");
    assert_eq!(windows("gr\u{fc}n/\u{1f600}".as_bytes()).unwrap(), "gr\u{fc}n/\u{1f600}".as_bytes());
    for bad in [&br"..\..\x"[..], b"C:/x", b"NUL", br"\\server\share", b"a:stream", b"\xff", b"a."] {
        assert!(windows(bad).is_none());
    }
    let text = |raw: &[u8]| sanitize(raw, PathRules::Text).map(|path| path.to_bytes());
    assert_eq!(text(br".\a\/b.").unwrap(), b"a/b.");
    assert_eq!(text(b"C:/NUL").unwrap(), b"C:/NUL");
    for bad in [&br"..\..\x"[..], br"\a", b"/a", b"a\0", b"\xff", b"./"] {
        assert!(text(bad).is_none());
    }
    for good in [&br"..\..\x"[..], b"C:/x", b"NUL", b"\xff"] {
        assert!(sanitize(good, PathRules::Unix).is_some());
    }
    let key = |raw: &[u8], rules| {
        DestinationKey::from_archive_path(&ArchivePath::from_bytes(raw), rules).unwrap()
    };
    assert!(key(b"File", PathRules::Windows).same(&key(b"FILE", PathRules::Windows)));
    assert!(!key(b"File", PathRules::Unix).same(&key(b"FILE", PathRules::Unix)));
    assert!(!key(b"File", PathRules::Text).same(&key(b"FILE", PathRules::Text)));
    assert!(key(br"a\b", PathRules::Text).same(&key(b"a/b", PathRules::Text)));
    assert!(key(br"a\b", PathRules::Windows).same(&key(b"A/B", PathRules::Windows)));
    let wide = ArchivePath {
        bytes: vec![b'N', 0, b'U', 0, b'L', 0],
        encoding: PathEncoding::Utf16Le,
    };
    assert!(sanitize_archive_path(&wide, PathRules::Windows).is_none());
    assert_eq!(sanitize_archive_path(&wide, PathRules::Unix).unwrap().to_bytes(), b"NUL");
}
