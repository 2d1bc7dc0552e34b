use swiftflow::config::{
    validate_reverse_dns, AppSection, Capabilities, Capability, CapabilityTable, Config,
    Orientation, SwiftFlowSection,
};

fn with_app_id(id: &str) -> Config {
    let mut config = Config::default();
    config.app.id = Some(id.to_string());
    config
}

fn with_capabilities(entries: &[(&str, Option<&str>)]) -> Config {
    let mut table = CapabilityTable::new();
    for (name, reason) in entries {
        table.insert(name.to_string(), Capability { reason: reason.map(|r| r.to_string()) });
    }
    let mut config = Config::default();
    config.capabilities = table;
    config
}

#[test]
fn the_pin_moves_out_of_the_old_file() {
    let mut config = Config::default();
    config.swiftflow = SwiftFlowSection { version: Some("dev".to_string()) };
    assert!(config.validate().is_ok());
    assert_eq!(config.pin(None).as_deref(), Some("dev"));
}

#[test]
fn the_old_pin_file_still_works_during_a_migration() {
    let config = Config::default();
    assert_eq!(config.pin(Some("0.1.0\n")).as_deref(), Some("0.1.0"));

    let mut config = Config::default();
    config.swiftflow.version = Some("dev".to_string());
    assert_eq!(config.pin(Some("0.1.0\n")).as_deref(), Some("dev"));
}

#[test]
fn a_blank_pin_falls_through_to_the_file_and_then_to_nothing() {
    let mut config = Config::default();
    config.swiftflow.version = Some("  \n".to_string());
    assert_eq!(config.pin(Some(" 0.2.0 ")).as_deref(), Some("0.2.0"));
    assert_eq!(config.pin(Some("\t\n")), None);
    assert_eq!(config.pin(None), None);
}

#[test]
fn typed_platform_values_beat_canonical_ones() {
    let mut config = with_app_id("com.example.app");
    config.android.application_id = Some("com.example.app.pro".to_string());
    assert!(config.validate().is_ok());
    assert_eq!(config.android_application_id(), Some("com.example.app.pro"));
    assert_eq!(config.android_namespace(), Some("com.example.app.pro"));
}

#[test]
fn canonical_is_used_when_nothing_overrides_it() {
    let config = with_app_id("com.example.app");
    assert!(config.validate().is_ok());
    assert_eq!(config.android_application_id(), Some("com.example.app"));
}

#[test]
fn an_explicit_namespace_wins_over_both_ids() {
    let mut config = with_app_id("com.example.app");
    config.android.namespace = Some("com.example.ns".to_string());
    assert_eq!(config.android_namespace(), Some("com.example.ns"));
    assert_eq!(Config::default().android_namespace(), None);
}

#[test]
fn a_bad_identifier_is_caught_here_rather_than_by_gradle() {
    for bad in ["noDots", "com..app", "com.1app", "com.my-app"] {
        let error = with_app_id(bad).validate().unwrap_err();
        assert!(error.contains("id"), "{bad} produced: {error}");
    }
    assert!(with_app_id("com.example.my_app").validate().is_ok());
}

#[test]
fn each_identifier_error_says_what_is_wrong() {
    assert_eq!(
        validate_reverse_dns("noDots").unwrap_err(),
        "expected reverse-DNS, like com.example.app"
    );
    assert_eq!(validate_reverse_dns("com..app").unwrap_err(), "has an empty segment");
    assert_eq!(
        validate_reverse_dns("com.1app").unwrap_err(),
        "segment \"1app\" starts with a digit"
    );
    assert_eq!(
        validate_reverse_dns("com.my-app").unwrap_err(),
        "segment \"my-app\" has characters Android rejects"
    );
    assert_eq!(validate_reverse_dns("com.").unwrap_err(), "has an empty segment");
    assert_eq!(validate_reverse_dns("com.example.my_app"), Ok(()));
    assert_eq!(
        with_app_id("com.1app").validate().unwrap_err(),
        "[app] id \"com.1app\": segment \"1app\" starts with a digit"
    );
    let mut config = Config::default();
    config.android.application_id = Some("x".to_string());
    assert_eq!(
        config.validate().unwrap_err(),
        "[android] application_id \"x\": expected reverse-DNS, like com.example.app"
    );
}

#[test]
fn the_first_faulty_segment_is_reported() {
    assert_eq!(
        validate_reverse_dns("a.b-c..d").unwrap_err(),
        "segment \"b-c\" has characters Android rejects"
    );
}

#[test]
fn accepted_identifiers_have_a_dot_and_clean_segments() {
    assert_eq!(validate_reverse_dns("_a.B_2.c9"), Ok(()));
    assert_eq!(validate_reverse_dns("a.b"), Ok(()));
    assert!(validate_reverse_dns(".a").is_err());
    assert!(validate_reverse_dns("a.b.").is_err());
    assert!(validate_reverse_dns("a.9").is_err());
    assert!(validate_reverse_dns("a.\u{e9}t\u{e9}").is_err());
    assert!(validate_reverse_dns("ab").is_err());
}

#[test]
fn capabilities_lower_to_permissions() {
    let config = with_capabilities(&[
        ("camera", Some("Scan pages.")),
        ("location-when-in-use", Some("Nearby content.")),
    ]);
    assert!(config.validate().is_ok());
    let permissions = config.android_permissions();
    assert!(permissions.contains(&"android.permission.CAMERA".to_string()));
    assert!(permissions.contains(&"android.permission.ACCESS_FINE_LOCATION".to_string()));
    assert!(permissions.contains(&"android.permission.ACCESS_COARSE_LOCATION".to_string()));
    assert!(permissions.contains(&"android.permission.INTERNET".to_string()));

    let usage = config.ios_usage_descriptions();
    assert!(usage.contains(&("NSCameraUsageDescription", "Scan pages.".into())));
}

#[test]
fn permissions_are_sorted_without_repeats() {
    let config = with_capabilities(&[
        ("location-always", None),
        ("location-when-in-use", None),
        ("network", None),
    ]);
    assert_eq!(
        config.android_permissions(),
        vec![
            "android.permission.ACCESS_BACKGROUND_LOCATION".to_string(),
            "android.permission.ACCESS_COARSE_LOCATION".to_string(),
            "android.permission.ACCESS_FINE_LOCATION".to_string(),
            "android.permission.INTERNET".to_string(),
        ]
    );
    assert_eq!(
        Config::default().android_permissions(),
        vec!["android.permission.INTERNET".to_string()]
    );
}

#[test]
fn an_unknown_capability_names_the_vocabulary() {
    let error = with_capabilities(&[("telepathy", Some("Why not."))]).validate().unwrap_err();
    assert!(error.contains("telepathy"));
    assert!(error.contains("camera"), "should list what is known: {error}");
    assert!(error.contains("[android.manifest]"), "should point at the escape hatch");
    assert_eq!(
        error,
        "unknown capability \"telepathy\"\n  known: camera, microphone, location-when-in-use, \
         location-always, photos, contacts, calendar, bluetooth, notifications, network\n  \
         Anything outside this vocabulary goes in [ios.plist] or [android.manifest] instead."
    );
}

#[test]
fn a_capability_without_a_reason_is_reported() {
    let config = with_capabilities(&[("camera", None)]);
    assert_eq!(config.capabilities_missing_reasons(), vec!["camera"]);

    let config = with_capabilities(&[("notifications", None)]);
    assert!(config.capabilities_missing_reasons().is_empty());
}

#[test]
fn usage_descriptions_follow_name_order_and_skip_what_ios_does_not_ask() {
    let config = with_capabilities(&[
        ("microphone", Some("Record notes.")),
        ("camera", Some("Scan pages.")),
        ("network", Some("Sync.")),
        ("photos", None),
    ]);
    assert_eq!(
        config.ios_usage_descriptions(),
        vec![
            ("NSCameraUsageDescription", "Scan pages.".to_string()),
            ("NSMicrophoneUsageDescription", "Record notes.".to_string()),
        ]
    );
    assert_eq!(config.capabilities_missing_reasons(), vec!["photos"]);
}

#[test]
fn the_capability_table_keeps_names_sorted_and_single() {
    let mut table = CapabilityTable::new();
    table.insert("photos".to_string(), Capability::default());
    table.insert("camera".to_string(), Capability { reason: Some("a".to_string()) });
    table.insert("camera".to_string(), Capability { reason: Some("b".to_string()) });
    assert_eq!(table.len(), 2);
    let mut config = Config::default();
    config.capabilities = table;
    assert_eq!(config.ios_usage_descriptions(), vec![("NSCameraUsageDescription", "b".to_string())]);
    assert_eq!(config.capabilities_missing_reasons(), vec!["photos"]);
}

#[test]
fn declared_but_not_yet_lowered_is_reported_not_ignored() {
    let mut config = Config::default();
    config.app = AppSection { icon: Some("assets/icon.png".to_string()), ..AppSection::default() };
    assert!(!config.unlowered().is_empty());
    assert!(config.unlowered()[0].contains("icon"));
}

#[test]
fn every_unlowered_setting_is_listed_in_order() {
    let mut config = Config::default();
    assert!(config.unlowered().is_empty());
    config.app.icon = Some("i.png".to_string());
    config.android.icon.background = Some("#000".to_string());
    config.desktop.window_icon = Some("w.png".to_string());
    config.ios.plist.push("UIStatusBarStyle".to_string());
    assert_eq!(
        config.unlowered(),
        vec![
            "[app] icon — per-platform icon generation",
            "[android.icon] — adaptive icon layers",
            "[desktop] window_icon — .desktop generation",
            "[ios.plist] / [ios] category — Info.plist merging",
        ]
    );
}

#[test]
fn lookup_knows_the_vocabulary_and_nothing_else() {
    let camera = Capabilities::lookup("camera").expect("camera is known");
    assert_eq!(camera.name, "camera");
    assert_eq!(camera.android, vec!["android.permission.CAMERA"]);
    assert_eq!(camera.ios_usage_key, Some("NSCameraUsageDescription"));
    assert!(Capabilities::lookup("Camera").is_none());
    assert!(Capabilities::lookup("telepathy").is_none());
    assert_eq!(Capabilities::names().len(), 10);
    assert_eq!(Capabilities::all().len(), 10);
}

#[test]
fn orientations_lower_to_android_values() {
    assert_eq!(Orientation::Portrait.android(), "portrait");
    assert_eq!(Orientation::Landscape.android(), "landscape");
    assert_eq!(Orientation::Any.android(), "fullSensor");
}
