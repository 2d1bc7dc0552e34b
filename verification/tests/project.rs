use std::cell::RefCell;
use std::collections::HashMap;
use std::path::{Path, PathBuf};
use swiftflow::project::{
    framework_root, home, home_from, join_path, package_manifest, rust_cache, scaffold,
    swift_identifier, swift_target, swiftflow_toml, Env, Platform,
};
use swiftflow::strs::trimmed_nonblank;

struct FakeEnv(HashMap<String, String>, RefCell<Vec<String>>);

impl FakeEnv {
    fn new(pairs: &[(&str, &str)]) -> Self {
        FakeEnv(
            pairs.iter().map(|(k, v)| (k.to_string(), v.to_string())).collect(),
            RefCell::new(Vec::new()),
        )
    }

    fn asked(&self) -> Vec<String> {
        self.1.borrow().clone()
    }
}

impl Env for FakeEnv {
    fn var(&self, key: &str) -> Option<String> {
        self.1.borrow_mut().push(key.to_string());
        self.0.get(key).cloned()
    }
}

#[test]
fn home_prefers_an_explicit_override() {
    let env = FakeEnv::new(&[("SWIFTFLOW_HOME", "/opt/sf"), ("HOME", "/home/x")]);
    assert_eq!(PathBuf::from(home(&env)), PathBuf::from("/opt/sf"));
}

#[test]
fn home_falls_back_to_the_user() {
    let env = FakeEnv::new(&[("HOME", "/home/x")]);
    assert_eq!(PathBuf::from(home(&env)), PathBuf::from("/home/x/.swiftflow"));
}

#[test]
fn an_empty_override_is_not_an_override() {
    let env = FakeEnv::new(&[("SWIFTFLOW_HOME", ""), ("HOME", "/home/x")]);
    assert_eq!(PathBuf::from(home(&env)), PathBuf::from("/home/x/.swiftflow"));
}

#[test]
fn with_no_home_at_all_the_working_directory_is_used() {
    assert_eq!(home_from(None, None), ".swiftflow");
    assert_eq!(home_from(Some(String::new()), Some(String::new())), ".swiftflow");
    assert_eq!(home_from(None, Some("/root/".to_string())), "/root/.swiftflow");
}

#[test]
fn a_pin_selects_a_version_and_no_pin_selects_current() {
    let home = "/h/.swiftflow";
    assert_eq!(
        PathBuf::from(framework_root(home, Some("0.1.0"))),
        PathBuf::from("/h/.swiftflow/versions/0.1.0")
    );
    assert_eq!(
        PathBuf::from(framework_root(home, Some("dev"))),
        PathBuf::from("/h/.swiftflow/versions/dev")
    );
    assert_eq!(PathBuf::from(framework_root(home, None)), PathBuf::from("/h/.swiftflow/current"));
    assert_eq!(
        PathBuf::from(framework_root(home, Some("  \n"))),
        PathBuf::from("/h/.swiftflow/current")
    );
}

#[test]
fn the_cache_is_keyed_by_version_not_by_project() {
    let home = "/h/.swiftflow";
    assert_eq!(
        PathBuf::from(rust_cache(home, "0.1.0")),
        PathBuf::from("/h/.swiftflow/cache/rust/0.1.0")
    );
    assert_ne!(rust_cache(home, "0.1.0"), rust_cache(home, "0.2.0"));
}

#[test]
fn joining_paths_matches_the_standard_library() {
    for (base, part) in [("/a", "b"), ("/a/", "b"), ("", "b"), ("/a", "/b"), ("a", "")] {
        let expected = Path::new(base).join(part);
        assert_eq!(PathBuf::from(join_path(base, part)), expected, "{base:?} + {part:?}");
    }
}

#[test]
fn platforms_round_trip_through_their_env_spelling() {
    for platform in [Platform::Ios, Platform::Desktop, Platform::Android] {
        assert_eq!(platform.env_value().parse::<Platform>().unwrap(), platform);
    }
}

#[test]
fn an_unknown_platform_says_what_it_expected() {
    let error = "windows".parse::<Platform>().unwrap_err();
    assert!(error.contains("ios"), "unhelpful: {error}");
    assert_eq!(error, "unknown platform \"windows\" — expected ios, desktop or android");
}

#[test]
fn platform_names_ignore_case_space_and_aliases() {
    assert_eq!(Platform::parse("  iPhone\n"), Ok(Platform::Ios));
    assert_eq!(Platform::parse("MacOS"), Ok(Platform::Desktop));
    assert_eq!(Platform::parse("linux"), Ok(Platform::Desktop));
    assert_eq!(Platform::parse("ANDROID"), Ok(Platform::Android));
    assert_eq!(
        Platform::parse(" Windows "),
        Err("unknown platform \"windows\" — expected ios, desktop or android".to_string())
    );
}

#[test]
fn the_default_platform_follows_the_host() {
    assert_eq!(Platform::default_for_host(true), Platform::Ios);
    assert_eq!(Platform::default_for_host(false), Platform::Desktop);
}

#[test]
fn directory_names_become_swift_identifiers() {
    assert_eq!(swift_identifier("myapp"), "Myapp");
    assert_eq!(swift_identifier("my-cool-app"), "MyCoolApp");
    assert_eq!(swift_identifier("my_cool app"), "MyCoolApp");
    assert_eq!(swift_identifier("Reader"), "Reader");
    assert_eq!(swift_identifier("2048"), "A2048");
    assert_eq!(swift_identifier("---"), "App");
}

#[test]
fn identifiers_keep_unicode_letters() {
    assert_eq!(swift_identifier("éclair-app"), "ÉclairApp");
    assert_eq!(swift_identifier(""), "App");
}

#[test]
fn the_scaffold_names_every_file_after_the_target() {
    let files = scaffold("my-cool-app", Some("dev"));
    let paths: Vec<&str> = files.iter().map(|f| f.path.as_str()).collect();
    assert!(paths.contains(&"Sources/MyCoolApp/MyCoolAppApp.swift"));
    assert!(paths.contains(&"Sources/MyCoolApp/ContentView.swift"));
    assert!(paths.contains(&"SwiftFlow.toml"));

    let manifest = &files.iter().find(|f| f.path == "Package.swift").unwrap().contents;
    assert!(manifest.contains(r#"name: "MyCoolApp""#));
    assert!(manifest.contains("SWIFTFLOW_HOME"));
    assert!(manifest.contains(".swiftflow-version"));
    assert!(manifest.contains("versions/"));
}

#[test]
fn the_manifest_pairs_an_executable_product_with_an_executable_target() {
    let files = scaffold("my-cool-app", Some("dev"));
    let manifest = &files.iter().find(|f| f.path == "Package.swift").unwrap().contents;

    assert!(manifest.contains(".executable(name:"), "desktop should still build an executable product");
    assert!(manifest.contains(".executableTarget("), "an executable product needs an executable target");
    assert!(manifest.contains(".library(name:"), "iOS/Android still build libraries");
    assert!(manifest.contains(".target("), "the non-desktop branch still needs a plain target");
    assert!(
        manifest.contains("if desktop {"),
        "the target kind must branch on the same condition as the product"
    );
}

#[test]
fn a_project_without_an_installed_framework_still_gets_a_config() {
    let files = scaffold("app", None);
    let config = &files
        .iter()
        .find(|f| f.path == "SwiftFlow.toml")
        .expect("a config is always written")
        .contents;
    assert!(config.contains(r#"version = "current""#));
    assert!(config.contains(r#"name    = "app""#));
}

#[test]
fn the_scaffolded_config_names_the_app_and_its_id() {
    let text = swiftflow_toml("my-cool-app", "MyCoolApp", Some("dev"));
    assert!(text.contains(r#"version = "dev""#));
    assert!(text.contains(r#"id      = "com.swiftflow.mycoolapp""#));
    assert!(text.contains(r#"name    = "my-cool-app""#));
}

#[test]
fn the_scaffold_writes_six_files_in_order() {
    let files = scaffold("Reader", None);
    let paths: Vec<&str> = files.iter().map(|f| f.path.as_str()).collect();
    assert_eq!(
        paths,
        vec![
            "Package.swift",
            "Sources/Reader/ReaderApp.swift",
            "Sources/Reader/ContentView.swift",
            "Sources/Reader/Assets/.gitkeep",
            ".gitignore",
            "SwiftFlow.toml",
        ]
    );
    assert!(files.iter().all(|f| !f.executable));
    assert_eq!(files[1].contents, "import SwiftFlow\n\n@main\nstruct ReaderApp: SwiftFlowApp {\n    var body: some Scene {\n        WindowGroup {\n            ContentView()\n        }\n    }\n}\n");
    assert_eq!(files[3].contents, "");
    assert!(files[4].contents.starts_with(".build/\n"));
    assert_eq!(files[0].contents, package_manifest("Reader"));
}

#[test]
fn the_target_is_the_only_source_directory_when_the_name_does_not_match() {
    assert_eq!(swift_target("SfCli7".to_string(), false, vec!["App".to_string()]), "App");
    assert_eq!(swift_target("Reader".to_string(), true, vec!["App".to_string()]), "Reader");
    assert_eq!(
        swift_target("Reader".to_string(), false, vec!["A".to_string(), "B".to_string()]),
        "Reader"
    );
    assert_eq!(swift_target("Reader".to_string(), false, vec![]), "Reader");
}

#[test]
fn a_version_file_is_read_trimmed_and_blank_means_none() {
    assert_eq!(trimmed_nonblank("0.1.0\n").as_deref(), Some("0.1.0"));
    assert_eq!(trimmed_nonblank(" \t\n"), None);
}

#[test]
fn the_scaffolded_config_round_trips_through_the_parser() {
    let files = scaffold("my-cool-app", Some("dev"));
    let config = &files
        .iter()
        .find(|f| f.path == "SwiftFlow.toml")
        .unwrap()
        .contents;
    let parsed: toml::Table = config.parse().unwrap();
    let version = parsed["swiftflow"].as_table().unwrap().get("version").and_then(|v| v.as_str());
    let id = parsed["app"].as_table().unwrap().get("id").and_then(|v| v.as_str());
    assert_eq!(version, Some("dev"));
    assert_eq!(id, Some("com.swiftflow.mycoolapp"));
}

#[test]
fn home_asks_for_home_only_without_an_override() {
    let env = FakeEnv::new(&[("SWIFTFLOW_HOME", "/opt/sf"), ("HOME", "/home/x")]);
    assert_eq!(home(&env), "/opt/sf");
    assert_eq!(env.asked(), vec!["SWIFTFLOW_HOME".to_string()]);
    let env = FakeEnv::new(&[("SWIFTFLOW_HOME", ""), ("HOME", "/home/x")]);
    assert_eq!(home(&env), "/home/x/.swiftflow");
    assert_eq!(env.asked(), vec!["SWIFTFLOW_HOME".to_string(), "HOME".to_string()]);
    let env = FakeEnv::new(&[]);
    assert_eq!(home(&env), ".swiftflow");
    assert_eq!(env.asked(), vec!["SWIFTFLOW_HOME".to_string(), "HOME".to_string()]);
}

#[test]
fn an_ascii_identifier_is_its_own_identifier() {
    for name in ["my-cool-app", "2048", "---", "", "a_b c", "Reader", "x9y"] {
        let once = swift_identifier(name);
        assert!(once.chars().all(|c| c.is_ascii_alphanumeric()));
        assert_eq!(swift_identifier(&once), once);
    }
    assert_eq!(swift_identifier("ab12cd-ef"), "Ab12cdEf");
}
