//! APK signing: the local signing key and the tool invocations that align,
//! sign and verify each split.
use vstd::prelude::*;
use crate::text::string_of;

verus! {

/// File name of the default keystore.
pub const KEYSTORE_FILE_NAME: &'static str = "garcia-local.p12";

/// Directory, under the platform data directory, of the default keystore.
pub const DATA_DIRECTORY_NAME: &'static str = "GarciaPatcher";

fn strings_of(parts: &[&str]) -> (v: Vec<String>)
    ensures
        v@.len() == parts@.len(),
        forall|i: int| 0 <= i < parts@.len() ==> #[trigger] v@[i]@ == parts@[i]@,
{
    let mut v: Vec<String> = Vec::new();
    let mut i: usize = 0;
    while i < parts.len()
        invariant
            i <= parts.len(),
            v@.len() == i,
            forall|k: int| 0 <= k < i ==> #[trigger] v@[k]@ == parts@[k]@,
        decreases parts.len() - i,
    {
        v.push(string_of(parts[i]));
        i = i + 1;
    }
    v
}

/// The texts of `v`.
pub open spec fn views(v: Seq<String>) -> Seq<Seq<char>> {
    v.map_values(|s: String| s@)
}

/// Arguments of `keytool` that create the local RSA signing key in `keystore`.
pub fn keytool_arguments(keystore: &str) -> (args: Vec<String>)
    ensures
        views(args@) == seq![
            "-genkeypair"@, "-storetype"@, "PKCS12"@, "-keyalg"@, "RSA"@, "-keysize"@, "2048"@,
            "-validity"@, "10000"@, "-alias"@, "garcia"@, "-dname"@, "CN=Garcia Local"@,
            "-keystore"@, keystore@, "-storepass"@, "garcia-local"@, "-keypass"@, "garcia-local"@,
        ],
{
    let args = strings_of(
        &[
            "-genkeypair",
            "-storetype",
            "PKCS12",
            "-keyalg",
            "RSA",
            "-keysize",
            "2048",
            "-validity",
            "10000",
            "-alias",
            "garcia",
            "-dname",
            "CN=Garcia Local",
            "-keystore",
            keystore,
            "-storepass",
            "garcia-local",
            "-keypass",
            "garcia-local",
        ],
    );
    assert(views(args@) =~= seq![
        "-genkeypair"@, "-storetype"@, "PKCS12"@, "-keyalg"@, "RSA"@, "-keysize"@, "2048"@,
        "-validity"@, "10000"@, "-alias"@, "garcia"@, "-dname"@, "CN=Garcia Local"@,
        "-keystore"@, keystore@, "-storepass"@, "garcia-local"@, "-keypass"@, "garcia-local"@,
    ]);
    args
}

/// Arguments of `zipalign` that align `apk` on 4-byte boundaries (pages for
/// shared libraries) into `aligned`.
pub fn zipalign_arguments(apk: &str, aligned: &str) -> (args: Vec<String>)
    ensures
        views(args@) == seq!["-f"@, "-p"@, "4"@, apk@, aligned@],
{
    let args = strings_of(&["-f", "-p", "4", apk, aligned]);
    assert(views(args@) =~= seq!["-f"@, "-p"@, "4"@, apk@, aligned@]);
    args
}

/// Arguments of `apksigner` that sign `aligned` with the local key into
/// `signed`, without a v4 signature.
pub fn apksigner_sign_arguments(keystore: &str, aligned: &str, signed: &str) -> (args: Vec<String>)
    ensures
        views(args@) == seq![
            "sign"@, "--ks"@, keystore@, "--ks-key-alias"@, "garcia"@, "--ks-pass"@,
            "pass:garcia-local"@, "--key-pass"@, "pass:garcia-local"@, "--v4-signing-enabled"@,
            "false"@, "--out"@, signed@, aligned@,
        ],
{
    let args = strings_of(
        &[
            "sign",
            "--ks",
            keystore,
            "--ks-key-alias",
            "garcia",
            "--ks-pass",
            "pass:garcia-local",
            "--key-pass",
            "pass:garcia-local",
            "--v4-signing-enabled",
            "false",
            "--out",
            signed,
            aligned,
        ],
    );
    assert(views(args@) =~= seq![
        "sign"@, "--ks"@, keystore@, "--ks-key-alias"@, "garcia"@, "--ks-pass"@,
        "pass:garcia-local"@, "--key-pass"@, "pass:garcia-local"@, "--v4-signing-enabled"@,
        "false"@, "--out"@, signed@, aligned@,
    ]);
    args
}

/// Arguments of `apksigner` that verify the signatures of `signed`.
pub fn apksigner_verify_arguments(signed: &str) -> (args: Vec<String>)
    ensures
        views(args@) == seq!["verify"@, "--verbose"@, signed@],
{
    let args = strings_of(&["verify", "--verbose", signed]);
    assert(views(args@) =~= seq!["verify"@, "--verbose"@, signed@]);
    args
}

} // verus!
