//! The text of the files a new project starts with.

use vstd::prelude::*;

verus! {

/// Piece 0 of `Package.swift`; the target name goes between pieces.
pub const MANIFEST_0: &'static str = r##"// swift-tools-version: 6.0
import PackageDescription
import Foundation

// One app, three hosts.
//
// The sources are platform-agnostic — `import SwiftFlow` and
// `@main struct App: SwiftFlowApp` are identical everywhere. What can't
// be shared is the *shape of the package*: iOS wants a library product,
// desktop an executable, Android a shared library NativeActivity can
// dlopen. So the manifest branches rather than the app existing three
// times.
let platform = ProcessInfo.processInfo.environment["SWIFTFLOW_PLATFORM"] ?? "ios"
let desktop = platform == "desktop"
let android = platform == "android"

// ── Finding SwiftFlow ─────────────────────────────────────────────────
// The framework is installed in ~/.swiftflow rather than vendored here.
// What this project pins is a version, in a one-line `.swiftflow-version`
// beside this file:
//
//   0.1.0   an installed release
//   dev     a symlink to a framework working tree
//   (none)  whatever `current` points at
//
// Resolved here rather than by a generator because a manifest runs on the
// host and can read the filesystem — so `swift build` works on a fresh
// clone with no generate step, and the pin is a file you can diff instead
// of an absolute path baked into a manifest.
let projectDir = URL(fileURLWithPath: #filePath).deletingLastPathComponent().path

let swiftflowHome = ProcessInfo.processInfo.environment["SWIFTFLOW_HOME"]
    ?? "\(NSHomeDirectory())/.swiftflow"

// Scanned for, not parsed. A manifest has no TOML parser and no way to
// add a dependency on one — but it needs exactly one key out of this
// file, so it looks for `version` under `[swiftflow]` and ignores
// everything else. The CLI reads the file properly.
let pin: String? = {
    guard let text = try? String(contentsOfFile: "\(projectDir)/SwiftFlow.toml", encoding: .utf8)
    else {
        // The file this replaced, so a project mid-migration still builds.
        return (try? String(contentsOfFile: "\(projectDir)/.swiftflow-version", encoding: .utf8))?
            .trimmingCharacters(in: .whitespacesAndNewlines)
    }
    var inSwiftFlowSection = false
    for rawLine in text.split(separator: "\n", omittingEmptySubsequences: false) {
        var line = String(rawLine)
        if let hash = line.firstIndex(of: "#") { line = String(line[..<hash]) }
        line = line.trimmingCharacters(in: .whitespaces)
        if line.hasPrefix("[") {
            inSwiftFlowSection = line == "[swiftflow]"
            continue
        }
        guard inSwiftFlowSection, let equals = line.firstIndex(of: "=") else { continue }
        guard line[..<equals].trimmingCharacters(in: .whitespaces) == "version" else { continue }
        return String(line[line.index(after: equals)...])
            .trimmingCharacters(in: .whitespaces)
            .trimmingCharacters(in: CharacterSet(charactersIn: "\"'"))
    }
    return nil
}()

let swiftflowRoot = (pin?.isEmpty == false)
    ? "\(swiftflowHome)/versions/\(pin!)"
    : "\(swiftflowHome)/current"

let hostPath = android
    ? "\(swiftflowRoot)/android"
    : (desktop ? "\(swiftflowRoot)/desktop" : "\(swiftflowRoot)/apple")
let hostName = android ? "SwiftFlowAndroid" : (desktop ? "SwiftFlowDesktop" : "SwiftFlowApple")

// nil rather than an empty list on Android: SwiftPM 6 has no `.android`
// SupportedPlatform, and stating an iOS or macOS minimum for a build that
// is neither only invites the resolver to check it.
let platforms: [SupportedPlatform]? =
    android ? nil : (desktop ? [.macOS(.v14)] : [.iOS(.v17)])

let product: Product = {
    if android {
        return .library(
            name: ""##;

/// Piece 1 of `Package.swift`.
pub const MANIFEST_1: &'static str = r#"",
            type: .dynamic,
            targets: [""#;

/// Piece 2 of `Package.swift`.
pub const MANIFEST_2: &'static str = r#"", ""#;

/// Piece 3 of `Package.swift`.
pub const MANIFEST_3: &'static str = r#"AndroidEntry"]
        )
    }
    return desktop
        ? .executable(name: ""#;

/// Piece 4 of `Package.swift`.
pub const MANIFEST_4: &'static str = r#"", targets: [""#;

/// Piece 5 of `Package.swift`.
pub const MANIFEST_5: &'static str = r#""])
        : .library(name: ""#;

/// Piece 6 of `Package.swift`.
pub const MANIFEST_6: &'static str = r#"", targets: [""#;

/// Piece 7 of `Package.swift`.
pub const MANIFEST_7: &'static str = r#""])
}()

let sources = [""#;

/// Piece 8 of `Package.swift`.
pub const MANIFEST_8: &'static str = r#"App.swift", "ContentView.swift"]

// Android starts in native code and calls up into Swift, so it needs a C
// entry point `@main` can't provide. `swiftflow build` generates one into
// .build/swiftflow-entry and it is compiled as its own target, so nothing
// platform-conditional lives in Sources/.
let entryTarget: Target = .target(
    name: ""#;

/// Piece 9 of `Package.swift`.
pub const MANIFEST_9: &'static str = r#"AndroidEntry",
    dependencies: [""#;

/// Piece 10 of `Package.swift`.
pub const MANIFEST_10: &'static str = r#"", .product(name: "SwiftFlow", package: hostName)],
    path: ".build/swiftflow-entry"
)

// `.executableTarget` on desktop, `.target` everywhere else.
//
// SwiftPM only infers that a target is executable from a file literally
// named `main.swift`. This app's entry point is `@main struct "#;

/// Piece 11 of `Package.swift`.
pub const MANIFEST_11: &'static str = r#"App`
// in "#;

/// Piece 12 of `Package.swift`.
pub const MANIFEST_12: &'static str = r#"App.swift, so pairing the executable product above with a
// plain `.target` fails outright:
//
//   error: executable product '"#;

/// Piece 13 of `Package.swift`.
pub const MANIFEST_13: &'static str = r#"' expects target '"#;

/// Piece 14 of `Package.swift`.
pub const MANIFEST_14: &'static str = r#"' to be
//   executable; an executable target requires a 'main.swift' file
//
// iOS and Android build *library* products — a dynamic one on Android for
// NativeActivity to dlopen — where `.executableTarget` would be equally
// wrong. Hence the branch rather than picking one.
let appTarget: Target = {
    let deps: [Target.Dependency] = [.product(name: "SwiftFlow", package: hostName)]
    // Sources are listed explicitly because Assets/ lives inside the
    // target directory and is a resource, not a source.
    if desktop {
        return .executableTarget(
            name: ""#;

/// Piece 15 of `Package.swift`.
pub const MANIFEST_15: &'static str = r#"",
            dependencies: deps,
            path: "Sources/"#;

/// Piece 16 of `Package.swift`.
pub const MANIFEST_16: &'static str = r#"",
            sources: sources,
            resources: [.copy("Assets")]
        )
    }
    return .target(
        name: ""#;

/// Piece 17 of `Package.swift`.
pub const MANIFEST_17: &'static str = r#"",
        dependencies: deps,
        path: "Sources/"#;

/// Piece 18 of `Package.swift`.
pub const MANIFEST_18: &'static str = r#"",
        sources: sources,
        resources: [.copy("Assets")]
    )
}()

let package = Package(
    name: ""#;

/// Piece 19 of `Package.swift`.
pub const MANIFEST_19: &'static str = r#"",
    platforms: platforms,
    products: [product],
    dependencies: [
        .package(name: hostName, path: hostPath)
    ],
    targets: android ? [appTarget, entryTarget] : [appTarget]
)
"#;

/// Piece 0 of the app's entry point; the target name goes between pieces.
pub const APP_SOURCE_0: &'static str = r#"import SwiftFlow

@main
struct "#;

/// Piece 1 of the app's entry point.
pub const APP_SOURCE_1: &'static str = r#"App: SwiftFlowApp {
    var body: some Scene {
        WindowGroup {
            ContentView()
        }
    }
}
"#;

/// Piece 0 of the starting `SwiftFlow.toml`.
pub const CONFIG_0: &'static str = r#"# One file describing this app on every platform. Canonical values
# are lowered into each platform's own manifest at build time.
#
# Precedence, when a key is expressible in more than one place:
#   raw passthrough  >  [platform] typed  >  [app] canonical

[swiftflow]
# Which SwiftFlow to build against: a version, or `dev` for a working
# tree. Remove the key to follow whatever `current` points at.
version = ""#;

/// Piece 1 of the starting `SwiftFlow.toml`.
pub const CONFIG_1: &'static str = r#""

[app]
id      = ""#;

/// Piece 2 of the starting `SwiftFlow.toml`.
pub const CONFIG_2: &'static str = r#""
name    = ""#;

/// Piece 3 of the starting `SwiftFlow.toml`.
pub const CONFIG_3: &'static str = r#""
version = "0.1.0"
# Monotonic integer. A store or a device refuses an install that does not
# increase it, which is why it is separate from the version above.
build   = 1
# portrait | landscape | any
# orientation = "portrait"

# Capabilities are canonical names the CLI knows how to lower: iOS gets a
# reason string, Android gets the permission constants. `swiftflow doctor`
# lists the vocabulary. Anything outside it goes in the raw sections below.
#
# [capabilities.camera]
# reason = "Scan pages into the reader."

# [ios]
# deployment_target = "16.0"

# [ios.plist]                    # merged verbatim into Info.plist, wins last
# UIStatusBarStyle = "UIStatusBarStyleLightContent"

# [android]
# min_sdk = 28                   # also picks the Swift SDK's target triple
# target_sdk = 34

# [android.manifest]             # merged onto <application>, wins last
# "android:hardwareAccelerated" = true
"#;

/// The starting view.
pub const CONTENT_VIEW: &'static str = r#"import SwiftFlow

struct ContentView: View {
    @State private var count = 0

    var body: some View {
        VStack(spacing: 16) {
            Icon.handWaving.size(48).foregroundColor(.accent)

            Text("Hello, SwiftFlow")
                .font(.title2)
                .fontWeight(.bold)

            Text("Tapped \(count) times")
                .font(.subheadline)
                .foregroundColor(.secondary)

            Button("Tap me") {
                withAnimation(.spring()) { count += 1 }
            }
        }
        .frame(maxWidth: .infinity, maxHeight: .infinity, alignment: .center)
        .navigationTitle("Home")
    }
}
"#;

/// The starting `.gitignore`.
pub const GITIGNORE: &'static str = r#".build/
.swiftpm/
xtool/
xtool.yml
*.ipa
.DS_Store
"#;

} // verus!
