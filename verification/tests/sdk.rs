use swiftflow::sdk::{
    android_triples_in, bundle_swift_version, declares_sdk_dir, host_swift_version, ndk_sysroot_error,
    pieces, toolchain_mismatch, toolchain_mismatch_error, Piece,
};

#[test]
fn a_bundle_manifest_names_its_android_triples() {
    let json = r#"{"targetTriples": {"aarch64-unknown-linux-android28": {}, "x86_64-unknown-linux-android28": {}, "arm64-apple-macosx": {}}}"#;
    assert_eq!(
        android_triples_in(json),
        ["aarch64-unknown-linux-android28", "x86_64-unknown-linux-android28"]
    );
    assert!(android_triples_in("nothing here").is_empty());
}

#[test]
fn pieces_keep_empty_runs_like_split() {
    assert_eq!(pieces("a,,b", Piece::Triple), ["a", "", "b"]);
    assert_eq!(pieces("", Piece::Version), [""]);
    assert_eq!(pieces("v6.3.3-RELEASE", Piece::Version), ["", "6.3.3", "", "", "", "", "", "", "", ""]);
}

#[test]
fn the_host_version_is_the_word_after_version() {
    let out = "Apple Swift version 6.3.3 (swiftlang-6.3.3.1 clang-1700)\nTarget: arm64-apple-macosx15.0";
    assert_eq!(host_swift_version(out).as_deref(), Some("6.3.3"));
    assert_eq!(host_swift_version("Swift version 6.2-dev").as_deref(), Some("6.2"));
    assert_eq!(host_swift_version("no version"), None);
    assert_eq!(host_swift_version("nothing"), None);
}

#[test]
fn a_bundle_name_carries_its_version() {
    assert_eq!(bundle_swift_version("swift-6.3.3-RELEASE_android.artifactbundle"), "6.3.3");
    assert_eq!(bundle_swift_version("swift-6.1-RELEASE-android-24-0.1.artifactbundle"), "6.1");
    assert_eq!(bundle_swift_version("android.artifactbundle"), "");
    assert_eq!(bundle_swift_version("x..5..y"), "5");
}

#[test]
fn a_matching_bundle_clears_any_mismatch() {
    let names = vec![
        "swift-6.1-RELEASE_android.artifactbundle".to_string(),
        "swift-6.3.3-RELEASE_android.artifactbundle".to_string(),
        "swift-6.0-RELEASE_wasm.artifactbundle".to_string(),
    ];
    assert_eq!(toolchain_mismatch("6.3.3", &names), None);
    assert_eq!(toolchain_mismatch("6.2", &names).as_deref(), Some("6.3.3"));
    assert_eq!(toolchain_mismatch("6.2", &vec![]), None);
    assert!(toolchain_mismatch_error("6.2", "6.3.3")
        .starts_with("Toolchain mismatch: host Swift is 6.2, the Android SDK is 6.3.3.\n"));
    assert!(toolchain_mismatch_error("6.2", "6.3.3").contains("swiftly install 6.3.3 && swiftly use 6.3.3"));
}

#[test]
fn local_properties_name_the_sdk() {
    assert!(declares_sdk_dir("# generated\n  sdk.dir=/opt/android\n"));
    assert!(!declares_sdk_dir("ndk.dir=/opt/ndk\n#sdk.dir=/x\n"));
    assert!(!declares_sdk_dir(""));
}

#[test]
fn the_ndk_report_depends_on_whether_the_ndk_is_set() {
    let set = ndk_sysroot_error("/b", true);
    assert!(set.contains("cd /b\n  ./scripts/setup-android-sdk.sh        # ANDROID_NDK_HOME is already set\n\n"));
    let unset = ndk_sysroot_error("/b", false);
    assert!(unset.contains("curl -fSL -o ndk.zip \\\n    https://dl.google.com/"));
}
