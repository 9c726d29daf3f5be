use garcia_patcher::archive::{
    apk_files, archive_entry_name, archive_order, check_base_apk, check_split_set, entry_options,
    file_stem_of, has_extension, is_signature_entry, plan_entry, plan_rewrite, settings_in_split,
    ArchiveEntry, SplitSettings,
    Compression, EntryAction, OutputError, WriteOptions,
};
use std::io::Write;

fn strings(v: &[&str]) -> Vec<String> {
    v.iter().map(|s| s.to_string()).collect()
}

fn entry(name: &str, is_dir: bool, stored: bool) -> ArchiveEntry {
    ArchiveEntry { name: name.to_string(), is_dir, stored, unix_mode: Some(0o644) }
}

#[test]
fn signature_entries() {
    for name in ["META-INF/MANIFEST.MF", "meta-inf/manifest.mf", "META-INF/CERT.RSA", "META-INF\\cert.sf", "META-INF/x.ec", "META-INF/A.DSA", "stamp-cert-sha256"] {
        assert!(is_signature_entry(name), "{name}");
    }
    for name in ["META-INF/services/x", "AndroidManifest.xml", "lib/META-INF/CERT.RSA", "META-INF/CERT.RSA2", "STAMP-CERT-SHA256.txt"] {
        assert!(!is_signature_entry(name), "{name}");
    }
}

#[test]
fn entry_names_use_forward_slashes() {
    assert_eq!(archive_entry_name("config\\arm64\\base.apk"), "config/arm64/base.apk");
    assert_eq!(archive_entry_name("icon.png"), "icon.png");
}

#[test]
fn extensions_and_stems() {
    assert!(has_extension("base.apk", "apk"));
    assert!(!has_extension(".apk", "apk"));
    assert!(!has_extension("base.apk.bak", "apk"));
    assert!(!has_extension("apk", "apk"));
    assert!(has_extension("game.xapk", "xapk"));
    assert!(!has_extension("..", ""));
    assert_eq!(file_stem_of("ALLfiring_1.1.22_APKPure.xapk"), "ALLfiring_1.1.22_APKPure");
    assert_eq!(file_stem_of(".hidden"), ".hidden");
    assert_eq!(file_stem_of("noext"), "noext");
    assert_eq!(file_stem_of("a.b."), "a.b");
}

#[test]
fn apk_selection_is_sorted() {
    let names = strings(&["info.json", "config.arm64_v8a.apk", "com.example.game.apk", "icon.png", "config.en.apk"]);
    let order = apk_files(&names);
    let picked: Vec<&str> = order.iter().map(|&i| names[i].as_str()).collect();
    assert_eq!(picked, vec!["com.example.game.apk", "config.arm64_v8a.apk", "config.en.apk"]);
}

#[test]
fn archive_order_is_stable_by_name() {
    let names = strings(&["b", "a/z", "a", "b", "Z"]);
    assert_eq!(archive_order(&names), vec![4, 2, 1, 0, 3]);
    assert_eq!(archive_order(&Vec::new()), Vec::<usize>::new());
}

#[test]
fn entry_plans() {
    let names = strings(&["assets/settings.txt", "AndroidManifest.xml", "assets/settings.txt"]);
    let stored = WriteOptions { compression: Compression::Stored, unix_mode: Some(0o644) };
    let deflated = WriteOptions { compression: Compression::Deflated, unix_mode: Some(0o644) };
    assert_eq!(entry_options(&entry("x", false, true)), stored);
    assert_eq!(plan_entry(&entry("META-INF/CERT.RSA", false, false), &names), EntryAction::Skip);
    assert_eq!(plan_entry(&entry("assets/", true, true), &names), EntryAction::Directory(stored.clone()));
    assert_eq!(plan_entry(&entry("assets/settings.txt", false, false), &names), EntryAction::Replace(deflated.clone(), 2));
    assert_eq!(plan_entry(&entry("classes.dex", false, false), &names), EntryAction::Copy(deflated));
}

#[test]
fn rewrite_plan_reports_missing_replacement() {
    let entries = vec![entry("AndroidManifest.xml", false, false), entry("assets/settings.txt", false, true)];
    let names = strings(&["assets/settings.txt", "AndroidManifest.xml"]);
    let plan = plan_rewrite(&entries, &names);
    assert_eq!(plan.missing, None);
    assert_eq!(plan.actions.len(), 2);
    let names = strings(&["AndroidManifest.xml", "META-INF/MANIFEST.MF", "missing.txt"]);
    let entries = vec![entry("META-INF/MANIFEST.MF", false, false), entry("AndroidManifest.xml", false, false)];
    assert_eq!(plan_rewrite(&entries, &names).missing, Some(1));
    assert_eq!(plan_rewrite(&entries, &Vec::new()).missing, None);
}

#[test]
fn split_set_check() {
    let expected = strings(&["base.apk", "config.en.apk"]);
    assert!(check_split_set(&expected, &strings(&["config.en.apk", "icon.png", "base.apk"])).is_ok());
    let err = check_split_set(&expected, &strings(&["base.apk"])).unwrap_err();
    assert!(matches!(err, OutputError::SplitSetMismatch));
    assert_eq!(err.message().unwrap(), "output XAPK does not contain the same APK split set as the input");
    assert!(check_split_set(&expected, &strings(&["base.apk", "config.en.apk", "extra.apk"])).is_err());
}

fn zip_bytes(entries: &[(&str, &[u8])]) -> Vec<u8> {
    let mut writer = zip::ZipWriter::new(std::io::Cursor::new(Vec::new()));
    for (name, bytes) in entries {
        writer.start_file(*name, zip::write::SimpleFileOptions::default()).unwrap();
        writer.write_all(bytes).unwrap();
    }
    writer.finish().unwrap().into_inner()
}

#[test]
fn base_apk_check() {
    let settings = "cdn=x\r\n";
    let manifest = [1u8, 2, 3];
    let good = zip_bytes(&[("assets/settings.txt", settings.as_bytes()), ("AndroidManifest.xml", &manifest)]);
    assert!(check_base_apk(good.clone(), settings, &manifest).is_ok());
    let err = check_base_apk(good.clone(), "cdn=y\r\n", &manifest).unwrap_err();
    assert!(matches!(err, OutputError::SettingsMismatch));
    assert_eq!(err.message().unwrap(), "output XAPK settings verification failed");
    let err = check_base_apk(good.clone(), settings, &[1, 2]).unwrap_err();
    assert!(matches!(err, OutputError::ManifestMismatch));
    assert_eq!(err.message().unwrap(), "output XAPK manifest verification failed");
    let no_manifest = zip_bytes(&[("assets/settings.txt", settings.as_bytes())]);
    assert!(matches!(check_base_apk(no_manifest, settings, &manifest), Err(OutputError::Zip(_))));
    let err = check_base_apk(b"not a zip".to_vec(), settings, &manifest).unwrap_err();
    assert!(matches!(err, OutputError::Zip(_)));
    assert!(err.message().is_none());
}

#[test]
fn settings_in_split_decodes_utf8() {
    assert!(matches!(settings_in_split(None), SplitSettings::Absent));
    match settings_in_split(Some("cdn=é\n".as_bytes().to_vec())) {
        SplitSettings::Text(text) => assert_eq!(text, "cdn=é\n"),
        other => panic!("{other:?}"),
    }
    assert!(matches!(settings_in_split(Some(vec![0xff, 0xfe])), SplitSettings::NotText(_)));
    assert!(matches!(settings_in_split(Some(vec![0xed, 0xa0, 0x80])), SplitSettings::NotText(_)));
}
