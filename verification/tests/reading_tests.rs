use garcia_patcher::archive::{
    apk_entries, entry_count, entry_data, extraction_entry, open_archive, split_settings,
    verify_output, zip_entry, ArchiveError, OutputError, SplitSettings,
};
use std::io::Write;
use zip::write::SimpleFileOptions;
use zip::CompressionMethod;

fn zip_of(entries: &[(&str, &[u8])]) -> Vec<u8> {
    let mut writer = zip::ZipWriter::new(std::io::Cursor::new(Vec::new()));
    for (name, bytes) in entries {
        writer.start_file(*name, SimpleFileOptions::default()).unwrap();
        writer.write_all(bytes).unwrap();
    }
    writer.finish().unwrap().into_inner()
}

fn strings(v: &[&str]) -> Vec<String> {
    v.iter().map(|s| s.to_string()).collect()
}

#[test]
fn entries_are_read_by_name() {
    let archive = zip_of(&[("assets/settings.txt", b"cdn=x\n"), ("AndroidManifest.xml", &[7, 8])]);
    assert_eq!(zip_entry(archive.clone(), "AndroidManifest.xml").unwrap(), Some(vec![7, 8]));
    assert_eq!(zip_entry(archive.clone(), "assets/settings.txt").unwrap(), Some(b"cdn=x\n".to_vec()));
    assert_eq!(zip_entry(archive, "classes.dex").unwrap(), None);
    assert!(matches!(zip_entry(b"not a zip".to_vec(), "classes.dex"), Err(ArchiveError::Zip(_))));
}

#[test]
fn split_settings_are_found_and_decoded() {
    let with = zip_of(&[("assets/settings.txt", "cdn=é\n".as_bytes())]);
    match split_settings(with).unwrap() {
        SplitSettings::Text(text) => assert_eq!(text, "cdn=é\n"),
        other => panic!("{other:?}"),
    }
    let without = zip_of(&[("classes.dex", b"dex")]);
    assert!(matches!(split_settings(without), Ok(SplitSettings::Absent)));
    let binary = zip_of(&[("assets/settings.txt", &[0xff, 0xfe])]);
    assert!(matches!(split_settings(binary), Ok(SplitSettings::NotText(_))));
    assert!(matches!(split_settings(Vec::new()), Err(ArchiveError::Zip(_))));
}

#[test]
fn apk_entries_describe_every_entry() {
    let mut writer = zip::ZipWriter::new(std::io::Cursor::new(Vec::new()));
    writer.add_directory("assets/", SimpleFileOptions::default()).unwrap();
    let stored = SimpleFileOptions::default()
        .compression_method(CompressionMethod::Stored)
        .unix_permissions(0o644);
    writer.start_file("assets/a.txt", stored).unwrap();
    writer.write_all(b"alpha").unwrap();
    let deflated = SimpleFileOptions::default().compression_method(CompressionMethod::Deflated);
    writer.start_file("classes.dex", deflated).unwrap();
    writer.write_all(b"dex dex dex dex").unwrap();
    let bytes = writer.finish().unwrap().into_inner();

    let mut archive = open_archive(bytes).unwrap();
    assert_eq!(entry_count(&archive), 3);
    let entries = apk_entries(&mut archive).unwrap();
    let names: Vec<&str> = entries.iter().map(|e| e.name.as_str()).collect();
    assert_eq!(names, vec!["assets/", "assets/a.txt", "classes.dex"]);
    assert!(entries[0].is_dir);
    assert!(!entries[1].is_dir && entries[1].stored);
    assert_eq!(entries[1].unix_mode.map(|m| m & 0o777), Some(0o644));
    assert!(!entries[2].stored);
    assert_eq!(entry_data(&mut archive, 1).unwrap(), b"alpha".to_vec());
    assert_eq!(entry_data(&mut archive, 2).unwrap(), b"dex dex dex dex".to_vec());
    assert!(matches!(entry_data(&mut archive, 3), Err(ArchiveError::Zip(_))));
    assert!(matches!(open_archive(b"PK".to_vec()), Err(ArchiveError::Zip(_))));
}

#[test]
fn extraction_refuses_paths_outside_the_destination() {
    let bytes = zip_of(&[("base.apk", b"apk"), ("../evil.txt", b"x"), ("dir/../ok.txt", b"ok")]);
    let mut archive = open_archive(bytes).unwrap();
    let first = extraction_entry(&mut archive, 0).unwrap();
    assert_eq!(first.path, "base.apk");
    assert!(!first.is_dir);
    assert_eq!(first.bytes, b"apk".to_vec());
    match extraction_entry(&mut archive, 1) {
        Err(ArchiveError::UnsafePath(name)) => assert_eq!(name, "../evil.txt"),
        Err(other) => panic!("{other:?}"),
        Ok(entry) => panic!("{}", entry.path),
    }
    let third = extraction_entry(&mut archive, 2).unwrap();
    assert_eq!(third.path, "ok.txt");
    assert_eq!(third.bytes, b"ok".to_vec());
    assert!(matches!(extraction_entry(&mut archive, 3), Err(ArchiveError::Zip(_))));
}

#[test]
fn extraction_keeps_directories_without_bytes() {
    let mut writer = zip::ZipWriter::new(std::io::Cursor::new(Vec::new()));
    writer.add_directory("Android/obb/", SimpleFileOptions::default()).unwrap();
    let bytes = writer.finish().unwrap().into_inner();
    let mut archive = open_archive(bytes).unwrap();
    let entry = extraction_entry(&mut archive, 0).unwrap();
    assert!(entry.is_dir);
    assert_eq!(entry.path, "Android/obb");
    assert!(entry.bytes.is_empty());
}

#[test]
fn finished_xapk_is_verified() {
    let settings = "cdn=x\n";
    let manifest = [1u8, 2, 3];
    let base = zip_of(&[("assets/settings.txt", settings.as_bytes()), ("AndroidManifest.xml", &manifest)]);
    let xapk = zip_of(&[("base.apk", &base), ("config.en.apk", b"split"), ("icon.png", b"png")]);
    let expected = strings(&["base.apk", "config.en.apk"]);
    assert!(verify_output(xapk.clone(), &expected, "base.apk", settings, &manifest).is_ok());

    let err = verify_output(xapk.clone(), &strings(&["base.apk"]), "base.apk", settings, &manifest).unwrap_err();
    assert!(matches!(err, OutputError::SplitSetMismatch));
    let err = verify_output(xapk.clone(), &expected, "base.apk", "cdn=y\n", &manifest).unwrap_err();
    assert!(matches!(err, OutputError::SettingsMismatch));
    let err = verify_output(xapk.clone(), &expected, "base.apk", settings, &[9]).unwrap_err();
    assert!(matches!(err, OutputError::ManifestMismatch));
    let err = verify_output(xapk, &strings(&["base.apk", "config.en.apk"]), "other.apk", settings, &manifest).unwrap_err();
    assert!(matches!(err, OutputError::Zip(_)));
    let err = verify_output(b"junk".to_vec(), &expected, "base.apk", settings, &manifest).unwrap_err();
    assert!(matches!(err, OutputError::Zip(_)));
}
