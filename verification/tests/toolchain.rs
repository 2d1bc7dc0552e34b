use swiftflow::toolchain::{
    android_api, android_entry_source, android_targets, to_decimal, triple_arch,
    application_id_in, declared_symbols, defines, env_or, exports_error, host_triple, main_type,
    main_type_in, missing_exports, words,
};

#[test]
fn nm_output_is_read_for_definitions_not_references() {
    let mach = "0000000000000000 T _sf_get_node_frame\n                 U _sf_missing\n";
    let elf = "0000000000000000 T sf_get_node_frame\n                 U sf_missing\n";
    for listing in [mach, elf] {
        assert!(defines(listing, "sf_get_node_frame"));
        assert!(
            !defines(listing, "sf_missing"),
            "a `U` entry is the symbol being *wanted*, which is exactly \
             the state that produces the link error this check exists for"
        );
        assert!(!defines(listing, "sf_absent"));
    }
}

#[test]
fn the_header_scanner_finds_the_declarations_and_nothing_else() {
    let header = "\
// sf_render_tree is mentioned here in prose, with a call sf_init(x);
typedef struct SFNode {
    uint32_t node_id;
} SFNode;
void sf_render_tree(SFNode* root, float w, float h, float scale);
SFRect sf_get_node_frame(const SFNode* root, uint32_t node_id);
void sf_desktop_run(void* app);
void sf_android_run(void* app);
";
    let core = declared_symbols(header, "swiftflow_wgpu");
    assert_eq!(core, ["sf_render_tree", "sf_get_node_frame"]);
}

#[test]
fn a_declaration_that_wraps_its_parameters_is_still_found() {
    let header = "\
size_t sf_hit_test_path(
    const SFNode* root,
    float x,
    float y
);
";
    assert_eq!(declared_symbols(header, "swiftflow_wgpu"), ["sf_hit_test_path"]);
}

#[test]
fn each_host_owns_only_its_own_entry_point() {
    let header = "\
void sf_init(float scale);
void sf_desktop_run(void* app);
void sf_android_run(void* app);
";
    assert_eq!(declared_symbols(header, "swiftflow_desktop"), ["sf_init", "sf_desktop_run"]);
    assert_eq!(declared_symbols(header, "swiftflow_android"), ["sf_init", "sf_android_run"]);
    assert_eq!(declared_symbols(header, "swiftflow_wgpu"), ["sf_init"]);
}

#[test]
fn a_declaration_repeated_is_listed_once() {
    let header = "void sf_init(float scale);\r\nvoid sf_init(float scale);\r\n#define sf_x(a) a\nint sf_(void);\n";
    assert_eq!(declared_symbols(header, "swiftflow_wgpu"), ["sf_init"]);
}

#[test]
fn what_the_archive_lacks_is_reported() {
    let listing = "0000 T _sf_init\n     U _sf_render_tree\n";
    let expected = vec!["sf_init".to_string(), "sf_render_tree".to_string(), "sf_hit".to_string()];
    let missing = missing_exports(&expected, listing);
    assert_eq!(missing, ["sf_render_tree", "sf_hit"]);
    assert_eq!(
        exports_error("H.h", "lib.a", "/t", &missing),
        "H.h declares functions that lib.a does not define:\n  sf_render_tree\n  sf_hit\n\n  \
         The C header and the Rust archive have drifted apart. Usually the archive is\n  \
         stale — cargo reused output from before those functions existed. Delete it\n  \
         and build again:\n\n    rm -rf /t\n"
    );
    assert!(exports_error("H.h", "lib.a", "/t", &missing[..1].to_vec()).starts_with("H.h declares a function that"));
}

#[test]
fn words_split_on_any_white_space() {
    assert_eq!(words("  a\tb  c\n"), ["a", "b", "c"]);
    assert!(words("   ").is_empty());
}

#[test]
fn the_main_type_is_found_however_it_is_written() {
    assert_eq!(
        main_type_in("import SwiftFlow\n\n@main\nstruct DemoApp: SwiftFlowApp {\n}\n").as_deref(),
        Some("DemoApp")
    );
    assert_eq!(main_type_in("@main\npublic struct Demo_2: SwiftFlowApp {}\n").as_deref(), Some("Demo_2"));
    assert_eq!(main_type_in("@main\n@MainActor\nenum Tool {}\n").as_deref(), Some("Tool"));
}

#[test]
fn a_project_without_a_main_type_reports_nothing() {
    assert_eq!(main_type_in("struct ContentView: View {}\n"), None);
    assert_eq!(main_type(&vec!["struct ContentView: View {}\n".to_string()]), None);
}

#[test]
fn the_first_source_with_a_main_type_wins() {
    let sources = vec![
        "struct A {}\n".to_string(),
        "@main\n// comment\n\nclass First {}\n".to_string(),
        "@main\nstruct Second {}\n".to_string(),
    ];
    assert_eq!(main_type(&sources).as_deref(), Some("First"));
}

#[test]
fn the_application_id_comes_out_of_the_gradle_file() {
    let text = "android {\n    namespace = \"com.example.thing\"\n    defaultConfig {\n        applicationId = \"com.example.thing\"\n    }\n}\n";
    assert_eq!(application_id_in(text).as_deref(), Some("com.example.thing"));
    assert_eq!(application_id_in("android {}\n"), None);
}

#[test]
fn the_host_triple_is_one_swiftpm_would_also_pick() {
    assert_eq!(host_triple(None, "macos", "aarch64").unwrap(), "aarch64-apple-darwin");
    assert_eq!(host_triple(None, "macos", "x86_64").unwrap(), "x86_64-apple-darwin");
    assert_eq!(host_triple(None, "windows", "x86_64").unwrap(), "x86_64-pc-windows-msvc");
    assert_eq!(host_triple(None, "linux", "aarch64").unwrap(), "aarch64-unknown-linux-gnu");
    assert_eq!(host_triple(Some(""), "linux", "x86_64").unwrap(), "x86_64-unknown-linux-gnu");
    assert_eq!(host_triple(Some("riscv64gc-unknown-linux-gnu"), "linux", "x86_64").unwrap(), "riscv64gc-unknown-linux-gnu");
    assert_eq!(
        host_triple(None, "freebsd", "x86_64").unwrap_err(),
        "unrecognised host; set SWIFTFLOW_RUST_TRIPLE"
    );
}

#[test]
fn env_or_ignores_an_exported_empty_value() {
    assert_eq!(env_or(Some(String::new()), "arm64-v8a"), "arm64-v8a");
    assert_eq!(env_or(Some("x86_64".to_string()), "arm64-v8a"), "x86_64");
    assert_eq!(env_or(None, "arm64-v8a"), "arm64-v8a");
}

#[test]
fn android_abis_pick_their_triples() {
    assert_eq!(
        android_targets("arm64-v8a", "28").unwrap(),
        ("aarch64-linux-android".to_string(), "aarch64-unknown-linux-android28".to_string())
    );
    assert_eq!(
        android_targets("x86_64", "34").unwrap(),
        ("x86_64-linux-android".to_string(), "x86_64-unknown-linux-android34".to_string())
    );
    assert_eq!(
        android_targets("armeabi", "28").unwrap_err(),
        "unsupported ABI \"armeabi\" — expected arm64-v8a or x86_64"
    );
    assert_eq!(android_api(Some("33".to_string()), Some(26)), "33");
    assert_eq!(android_api(Some(String::new()), Some(26)), "26");
    assert_eq!(android_api(None, None), "28");
    assert_eq!(to_decimal(0), "0");
    assert_eq!(to_decimal(4294967295), "4294967295");
    assert_eq!(triple_arch("x86_64-linux-android"), "x86_64");
    assert_eq!(triple_arch("wasm"), "wasm");
    assert_eq!(
        android_entry_source("DemoApp"),
        "import SwiftFlow\n\n@_cdecl(\"sf_android_main\")\npublic func sf_android_main() {\n    DemoApp.main()\n}\n"
    );
}
