use garcia_patcher::args::Cli;
use garcia_patcher::signing::{apksigner_sign_arguments, apksigner_verify_arguments, keytool_arguments, zipalign_arguments};

fn cli(output: Option<&str>) -> Cli {
    Cli { input: "in.xapk".to_string(), config: "config.toml".to_string(), output: output.map(|s| s.to_string()) }
}

#[test]
fn default_output_is_host_qualified() {
    assert_eq!(
        cli(None).output_path(
            "/data/ALLfiring_1.1.22_APKPure.xapk",
            Some("ALLfiring_1.1.22_APKPure.xapk"),
            "10.0.0.186",
            Some("/work"),
        ),
        Some("/data/ALLfiring_1.1.22_APKPure-garcia-10.0.0.186.xapk".to_string())
    );
    assert_eq!(
        cli(None).output_path("/data/x", None, "1.2.3.4", None),
        Some("/data/allfiring-garcia-1.2.3.4.xapk".to_string())
    );
}

#[test]
fn given_output_is_made_absolute() {
    assert_eq!(
        cli(Some("/out/patched.xapk")).output_path("/data/a.xapk", Some("a.xapk"), "h", None),
        Some("/out/patched.xapk".to_string())
    );
    assert_eq!(
        cli(Some("out.xapk")).output_path("/data/a.xapk", Some("a.xapk"), "h", Some("/work")),
        Some("/work/out.xapk".to_string())
    );
    assert_eq!(cli(Some("out.xapk")).output_path("/data/a.xapk", Some("a.xapk"), "h", None), None);
}

#[test]
fn tool_arguments() {
    assert_eq!(zipalign_arguments("a.apk", "a.aligned.apk"), vec!["-f", "-p", "4", "a.apk", "a.aligned.apk"]);
    assert_eq!(apksigner_verify_arguments("s.apk"), vec!["verify", "--verbose", "s.apk"]);
    assert_eq!(
        apksigner_sign_arguments("k.p12", "a.apk", "s.apk"),
        vec!["sign", "--ks", "k.p12", "--ks-key-alias", "garcia", "--ks-pass", "pass:garcia-local", "--key-pass", "pass:garcia-local", "--v4-signing-enabled", "false", "--out", "s.apk", "a.apk"]
    );
    let k = keytool_arguments("k.p12");
    assert_eq!(k.len(), 19);
    assert_eq!(k[14], "k.p12");
    assert_eq!(k[12], "CN=Garcia Local");
}
