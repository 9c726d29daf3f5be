use garcia_patcher::manifest::{match_offsets, restore_game_application, utf16le, ManifestError, RestoreStatus};

fn utf16(s: &str) -> Vec<u8> {
    s.encode_utf16().flat_map(u16::to_le_bytes).collect()
}

/// A string-pool entry: 16-bit unit count, UTF-16LE text, 16-bit NUL.
fn pool_entry(s: &str) -> Vec<u8> {
    let mut v = (s.encode_utf16().count() as u16).to_le_bytes().to_vec();
    v.extend(utf16(s));
    v.extend([0, 0]);
    v
}

#[test]
fn utf16le_encodes_ascii_and_surrogates() {
    assert_eq!(utf16le("Ab"), vec![0x41, 0, 0x62, 0]);
    assert_eq!(utf16le("é"), vec![0xE9, 0]);
    assert_eq!(utf16le("😀"), vec![0x3D, 0xD8, 0x00, 0xDE]);
    assert_eq!(utf16le(""), Vec::<u8>::new());
    assert_eq!(utf16le("com.DcSdk.DcApplication"), utf16("com.DcSdk.DcApplication"));
}

#[test]
fn match_offsets_finds_overlapping_matches() {
    assert_eq!(match_offsets(&[1, 1, 1, 2, 1, 1], &[1, 1]), vec![0, 1, 4]);
    assert_eq!(match_offsets(&[1, 2, 3], &[4]), Vec::<usize>::new());
    assert_eq!(match_offsets(&[1, 2], &[1, 2, 3]), Vec::<usize>::new());
}

#[test]
fn restore_replaces_pairip_entry() {
    let mut manifest = vec![9, 9, 9];
    manifest.extend(pool_entry("com.pairip.application.Application"));
    manifest.extend([7, 7]);
    let (patched, status) = restore_game_application(&manifest).unwrap();
    assert_eq!(status, RestoreStatus::Restored);
    let mut expected = vec![9, 9, 9];
    expected.extend(pool_entry("com.DcSdk.DcApplication"));
    expected.extend(vec![0; 68 + 2 - 46 - 2]);
    expected.extend([7, 7]);
    assert_eq!(patched.len(), manifest.len());
    assert_eq!(patched, expected);
    assert_eq!(status.message(), "restored to com.DcSdk.DcApplication");
}

#[test]
fn restore_twice_reports_already_restored() {
    let mut manifest = vec![1];
    manifest.extend(pool_entry("com.pairip.application.Application"));
    let (patched, _) = restore_game_application(&manifest).unwrap();
    let (again, status) = restore_game_application(&patched).unwrap();
    assert_eq!(status, RestoreStatus::AlreadyRestored);
    assert_eq!(again, patched);
    assert_eq!(status.message(), "already set to com.DcSdk.DcApplication");
}

#[test]
fn restore_rejects_missing_or_repeated_class() {
    let manifest = vec![0u8; 10];
    let err = restore_game_application(&manifest).unwrap_err();
    assert_eq!(err, ManifestError::UnexpectedPairipCount(0));
    assert_eq!(
        err.message(),
        "expected one Pairip application class in AndroidManifest.xml, found 0"
    );
    let mut twice = pool_entry("com.pairip.application.Application");
    twice.extend(pool_entry("com.pairip.application.Application"));
    assert_eq!(
        restore_game_application(&twice).unwrap_err(),
        ManifestError::UnexpectedPairipCount(2)
    );
}

#[test]
fn restore_rejects_unsupported_layout() {
    // wrong length prefix
    let mut manifest = vec![5, 0];
    manifest.extend(utf16("com.pairip.application.Application"));
    manifest.extend([0, 0]);
    let err = restore_game_application(&manifest).unwrap_err();
    assert_eq!(err, ManifestError::UnsupportedLayout);
    assert_eq!(err.message(), "unsupported AndroidManifest.xml string-pool layout");
    // no room for the length prefix
    let mut start = utf16("com.pairip.application.Application");
    start.extend([0, 0]);
    assert_eq!(restore_game_application(&start).unwrap_err(), ManifestError::UnsupportedLayout);
    // no terminator
    let mut end = vec![34, 0];
    end.extend(utf16("com.pairip.application.Application"));
    assert_eq!(restore_game_application(&end).unwrap_err(), ManifestError::UnsupportedLayout);
}

#[test]
fn restore_with_both_classes_present_is_an_error() {
    let mut manifest = pool_entry("com.pairip.application.Application");
    manifest.extend(pool_entry("com.DcSdk.DcApplication"));
    // one Pairip class: restored even though the game class is also there
    let (patched, status) = restore_game_application(&manifest).unwrap();
    assert_eq!(status, RestoreStatus::Restored);
    // now the game class occurs twice
    assert_eq!(
        restore_game_application(&patched).unwrap_err(),
        ManifestError::UnexpectedPairipCount(0)
    );
}
