//! Where things live (the SwiftFlow home, framework versions, caches), the
//! platforms a project builds for, and the files a new project starts
//! with.

use vstd::prelude::*;
use crate::config::{opt_str_view, FILE_NAME};
use crate::templates::{
    MANIFEST_0, MANIFEST_1, MANIFEST_2, MANIFEST_3, MANIFEST_4, MANIFEST_5, MANIFEST_6, MANIFEST_7, MANIFEST_8, MANIFEST_9, MANIFEST_10, MANIFEST_11, MANIFEST_12, MANIFEST_13, MANIFEST_14, MANIFEST_15, MANIFEST_16, MANIFEST_17, MANIFEST_18, MANIFEST_19,
    APP_SOURCE_0, APP_SOURCE_1, CONFIG_0, CONFIG_1, CONFIG_2, CONFIG_3, CONTENT_VIEW, GITIGNORE,
};
use crate::strs::{
    ascii_lower, ascii_upper, char_is_alphanumeric, is_ascii_alnum, char_is_whitespace, char_uppercase, chars_of, concat2, quoted,
    debug_string, is_alphanumeric, is_digit, join, joined, push_char, str_views, to_ascii_lowercase,
    to_uppercase, trim, trimmed,
};

verus! {

/// The environment a command runs in: its variables.
pub trait Env {
    /// Whether this environment may give `value` for the variable `key`.
    /// A relation, not a function: an environment may change between
    /// two reads. Unless an environment says more, it may give any value.
    closed spec fn gives(&self, key: Seq<char>, value: Option<Seq<char>>) -> bool {
        true
    }

    /// The value of the variable `key`, if it is set.
    fn var(&self, key: &str) -> (r: Option<String>)
        ensures
            self.gives(key@, owned_view(r)),
    ;
}

/// `part` appended to the path `base` as `Path::join` does on Unix: an
/// absolute `part` replaces `base`, an empty `base` gives `part`, and one
/// separator goes between them.
pub open spec fn path_join(base: Seq<char>, part: Seq<char>) -> Seq<char> {
    if part.len() > 0 && part[0] == '/' {
        part
    } else if base.len() == 0 {
        part
    } else if base.last() == '/' {
        base + part
    } else {
        base + seq!['/'] + part
    }
}

/// `part` appended to the path `base`.
pub fn join_path(base: &str, part: &str) -> (r: String)
    ensures
        r@ == path_join(base@, part@),
{
    let p = chars_of(part);
    if p.len() > 0 && p[0] == '/' {
        return part.to_owned();
    }
    let b = chars_of(base);
    if b.len() == 0 {
        return part.to_owned();
    }
    if b[b.len() - 1] == '/' {
        return concat2(base, part);
    }
    let mut r = base.to_owned();
    push_char(&mut r, '/');
    r.append(part);
    r
}

/// A project found on disk: its root directory, its name (that of the
/// directory), its Swift target, the version it is pinned to and its
/// configuration.
#[derive(Debug)]
pub struct Project {
    pub root: String,
    pub name: String,
    pub target: String,
    pub pin: Option<String>,
    pub config: crate::config::Config,
}

/// The SwiftFlow home: `$SWIFTFLOW_HOME` when it is set and not empty,
/// else `.swiftflow` under `$HOME` when that is set and not empty, else
/// `.swiftflow` relative to the working directory.
pub open spec fn home_of(explicit: Option<Seq<char>>, user_home: Option<Seq<char>>) -> Seq<char> {
    if explicit is Some && explicit->0.len() > 0 {
        explicit->0
    } else if user_home is Some && user_home->0.len() > 0 {
        path_join(user_home->0, ".swiftflow"@)
    } else {
        ".swiftflow"@
    }
}

/// The view of an optional owned string.
pub open spec fn owned_view(o: Option<String>) -> Option<Seq<char>> {
    match o {
        Some(s) => Some(s@),
        None => None,
    }
}

/// The SwiftFlow home, from the values of `SWIFTFLOW_HOME` and `HOME`.
pub fn home_from(explicit: Option<String>, user_home: Option<String>) -> (h: String)
    ensures
        h@ == home_of(owned_view(explicit), owned_view(user_home)),
{
    match explicit {
        Some(e) => {
            if !e.as_str().is_empty() {
                return e;
            }
        },
        None => {},
    }
    match user_home {
        Some(u) => {
            if !u.as_str().is_empty() {
                return join_path(u.as_str(), ".swiftflow");
            }
        },
        None => {},
    }
    String::from_str(".swiftflow")
}

/// The SwiftFlow home in the environment `env`: `SWIFTFLOW_HOME` when
/// it is set and not empty; otherwise `HOME` is read, and the home is
/// `.swiftflow` under it when it is set and not empty, else `.swiftflow`.
/// `HOME` is only asked for when `SWIFTFLOW_HOME` gives no home.
pub fn home<E: Env>(env: &E) -> (h: String)
    ensures
        exists|explicit: Option<Seq<char>>, user_home: Option<Seq<char>>|
            #![trigger home_of(explicit, user_home)]
            {
                &&& env.gives("SWIFTFLOW_HOME"@, explicit)
                &&& (explicit is Some && explicit->0.len() > 0) || env.gives("HOME"@, user_home)
                &&& h@ == home_of(explicit, user_home)
            },
        h@.len() > 0,
{
    let explicit = env.var("SWIFTFLOW_HOME");
    let ghost e = owned_view(explicit);
    let set = match &explicit {
        Some(v) => !v.as_str().is_empty(),
        None => false,
    };
    if set {
        let h = home_from(explicit, None);
        proof {
            let u: Option<Seq<char>> = None;
            assert(h@ == home_of(e, u));
        }
        return h;
    }
    let user_home = env.var("HOME");
    let ghost u = owned_view(user_home);
    let h = home_from(explicit, user_home);
    proof {
        reveal_strlit(".swiftflow");
        assert(h@ == home_of(e, u));
    }
    h
}

/// The framework a project builds against: `versions/<pin>` under the
/// home for a pin that is not blank (trimmed), else `current`.
pub open spec fn framework_root_of(home: Seq<char>, pin: Option<Seq<char>>) -> Seq<char> {
    if pin is Some && trimmed(pin->0).len() > 0 {
        path_join(path_join(home, "versions"@), trimmed(pin->0))
    } else {
        path_join(home, "current"@)
    }
}

/// The framework a project pinned to `pin` builds against.
pub fn framework_root(home: &str, pin: Option<&str>) -> (r: String)
    ensures
        r@ == framework_root_of(home@, opt_str_view(pin)),
{
    match pin {
        Some(p) => {
            let version = trim(p);
            if !version.as_str().is_empty() {
                let versions = join_path(home, "versions");
                return join_path(versions.as_str(), version.as_str());
            }
        },
        None => {},
    }
    join_path(home, "current")
}

/// The Rust build cache of framework `version`: shared by every project
/// on that version.
pub fn rust_cache(home: &str, version: &str) -> (r: String)
    ensures
        r@ == path_join(path_join(path_join(home@, "cache"@), "rust"@), version@),
{
    let cache = join_path(home, "cache");
    let rust = join_path(cache.as_str(), "rust");
    join_path(rust.as_str(), version)
}

/// The platforms a project builds for.
#[derive(Debug, Clone, Copy, PartialEq, Eq)]
pub enum Platform {
    Ios,
    Desktop,
    Android,
}

/// How a platform is spelled in `SWIFTFLOW_PLATFORM`.
pub open spec fn env_spelling(p: Platform) -> Seq<char> {
    match p {
        Platform::Ios => "ios"@,
        Platform::Desktop => "desktop"@,
        Platform::Android => "android"@,
    }
}

/// Each character of `s` with ASCII capitals made small.
pub open spec fn ascii_lowercase(s: Seq<char>) -> Seq<char> {
    s.map_values(|c: char| ascii_lower(c))
}

/// The platform a name denotes, after trimming and ASCII lower-casing,
/// or the message for a name that denotes none.
pub open spec fn parse_platform(s: Seq<char>) -> Result<Platform, Seq<char>> {
    let t = ascii_lowercase(trimmed(s));
    if t == "ios"@ || t == "iphone"@ {
        Ok(Platform::Ios)
    } else if t == "desktop"@ || t == "mac"@ || t == "macos"@ || t == "linux"@ {
        Ok(Platform::Desktop)
    } else if t == "android"@ {
        Ok(Platform::Android)
    } else {
        Err("unknown platform "@ + quoted(t) + " — expected ios, desktop or android"@)
    }
}

/// `s` with ASCII capitals made small (`str::to_ascii_lowercase`).
pub fn to_ascii_lowercase_str(s: &str) -> (r: String)
    ensures
        r@ == ascii_lowercase(s@),
{
    let v = chars_of(s);
    let mut r = String::new();
    let mut i: usize = 0;
    while i < v.len()
        invariant
            v@ == s@,
            i <= v@.len(),
            r@ == ascii_lowercase(s@.take(i as int)),
        decreases v@.len() - i,
    {
        push_char(&mut r, to_ascii_lowercase(v[i]));
        proof {
            assert(ascii_lowercase(s@.take(i + 1)) =~= ascii_lowercase(s@.take(i as int)).push(
                ascii_lower(s@[i as int]),
            ));
        }
        i = i + 1;
    }
    proof {
        assert(s@.take(i as int) =~= s@);
    }
    r
}

impl Platform {
    /// How the platform is spelled in `SWIFTFLOW_PLATFORM`.
    pub fn env_value(self) -> (s: &'static str)
        ensures
            s@ == env_spelling(self),
    {
        match self {
            Platform::Ios => "ios",
            Platform::Desktop => "desktop",
            Platform::Android => "android",
        }
    }

    /// The platform to build for when none is named: iOS on a Mac, the
    /// desktop host anywhere else.
    pub fn default_for_host(host_is_macos: bool) -> (p: Platform)
        ensures
            p == if host_is_macos {
                Platform::Ios
            } else {
                Platform::Desktop
            },
    {
        if host_is_macos {
            Platform::Ios
        } else {
            Platform::Desktop
        }
    }

    /// The platform `s` names, ignoring surrounding white space and ASCII
    /// case, with a few aliases; an unknown name is an error that says
    /// what was expected.
    pub fn parse(s: &str) -> (r: Result<Platform, String>)
        ensures
            match r {
                Ok(p) => parse_platform(s@) == Ok::<Platform, Seq<char>>(p),
                Err(e) => parse_platform(s@) == Err::<Platform, Seq<char>>(e@),
            },
    {
        let trimmed_s = trim(s);
        let t = to_ascii_lowercase_str(trimmed_s.as_str());
        let name = t.as_str();
        if crate::strs::str_eq(name, "ios") || crate::strs::str_eq(name, "iphone") {
            Ok(Platform::Ios)
        } else if crate::strs::str_eq(name, "desktop") || crate::strs::str_eq(name, "mac")
            || crate::strs::str_eq(name, "macos") || crate::strs::str_eq(name, "linux") {
            Ok(Platform::Desktop)
        } else if crate::strs::str_eq(name, "android") {
            Ok(Platform::Android)
        } else {
            let mut m = String::from_str("unknown platform ");
            let shown = debug_string(name);
            m.append(shown.as_str());
            m.append(" — expected ios, desktop or android");
            Err(m)
        }
    }
}

impl std::str::FromStr for Platform {
    type Err = String;

    fn from_str(s: &str) -> (r: Result<Platform, String>)
        ensures
            match r {
                Ok(p) => parse_platform(s@) == Ok::<Platform, Seq<char>>(p),
                Err(e) => parse_platform(s@) == Err::<Platform, Seq<char>>(e@),
            },
    {
        Platform::parse(s)
    }
}


/// The project's Swift target: the identifier made from its directory
/// name when `Sources/` has a directory of that name, else the only
/// directory `Sources/` has, else that identifier anyway.
pub open spec fn swift_target_of(expected: Seq<char>, expected_is_dir: bool, source_dirs: Seq<Seq<char>>) -> Seq<char> {
    if expected_is_dir {
        expected
    } else if source_dirs.len() == 1 {
        source_dirs[0]
    } else {
        expected
    }
}

/// The project's Swift target, given the identifier its directory name
/// makes, whether `Sources/` has a directory of that name, and the
/// directories `Sources/` has.
pub fn swift_target(expected: String, expected_is_dir: bool, source_dirs: Vec<String>) -> (t: String)
    ensures
        t@ == swift_target_of(expected@, expected_is_dir, crate::strs::string_views(source_dirs@)),
{
    if expected_is_dir {
        return expected;
    }
    if source_dirs.len() == 1 {
        let mut dirs = source_dirs;
        let only = dirs.remove(0);
        return only;
    }
    expected
}

/// What the characters of a directory name have made so far, and whether
/// the next letter or digit starts a new word.
pub open spec fn ident_scan(s: Seq<char>) -> (Seq<char>, bool)
    decreases s.len(),
{
    if s.len() == 0 {
        (Seq::empty(), true)
    } else {
        let (out, capitalise) = ident_scan(s.drop_last());
        let c = s.last();
        if char_is_alphanumeric(c) {
            if capitalise {
                (out + char_uppercase(c), false)
            } else {
                (out.push(c), false)
            }
        } else {
            (out, true)
        }
    }
}

/// A Swift type name made from a directory name: its letters and digits,
/// each run of them starting with a capital; an `A` in front when it would
/// start with a digit; `App` when nothing is left.
pub open spec fn swift_identifier_of(name: Seq<char>) -> Seq<char> {
    let body = ident_scan(name).0;
    let fixed = if body.len() > 0 && is_digit(body[0]) {
        seq!['A'] + body
    } else {
        body
    };
    if fixed.len() == 0 {
        "App"@
    } else {
        fixed
    }
}

/// Every character of `s` is ASCII.
pub open spec fn is_ascii_str(s: Seq<char>) -> bool {
    forall|i: int| 0 <= i < s.len() ==> (#[trigger] s[i] as u32) < 128
}

/// `ident_scan` for ASCII text, where the letters and digits are the ASCII
/// ones and upper case is ASCII upper case.
pub open spec fn ascii_ident_scan(s: Seq<char>) -> (Seq<char>, bool)
    decreases s.len(),
{
    if s.len() == 0 {
        (Seq::empty(), true)
    } else {
        let (out, capitalise) = ascii_ident_scan(s.drop_last());
        let c = s.last();
        if is_ascii_alnum(c) {
            if capitalise {
                (out.push(ascii_upper(c)), false)
            } else {
                (out.push(c), false)
            }
        } else {
            (out, true)
        }
    }
}

/// The Swift type name an ASCII directory name makes: its runs of ASCII
/// letters and digits, each starting with an ASCII capital, joined; an
/// `A` in front when that starts with a digit; `App` when it is empty.
pub open spec fn ascii_identifier_of(name: Seq<char>) -> Seq<char> {
    let body = ascii_ident_scan(name).0;
    let fixed = if body.len() > 0 && is_digit(body[0]) {
        seq!['A'] + body
    } else {
        body
    };
    if fixed.len() == 0 {
        "App"@
    } else {
        fixed
    }
}

/// The Swift type name for a directory called `name`.
pub fn swift_identifier(name: &str) -> (r: String)
    ensures
        r@ == swift_identifier_of(name@),
        is_ascii_str(name@) ==> r@ == ascii_identifier_of(name@),
{
    let v = chars_of(name);
    let mut out = String::new();
    let mut capitalise = true;
    let mut i: usize = 0;
    proof {
        assert(name@.take(0) =~= Seq::<char>::empty());
    }
    while i < v.len()
        invariant
            v@ == name@,
            i <= v@.len(),
            (out@, capitalise) == ident_scan(name@.take(i as int)),
            is_ascii_str(name@) ==> (out@, capitalise) == ascii_ident_scan(name@.take(i as int)),
        decreases v@.len() - i,
    {
        let ch = v[i];
        proof {
            assert(name@.take(i + 1).drop_last() =~= name@.take(i as int));
            assert(name@.take(i + 1).last() == ch);
            if is_ascii_str(name@) {
                assert((name@[i as int] as u32) < 128);
            }
        }
        if is_alphanumeric(ch) {
            if capitalise {
                let upper = to_uppercase(ch);
                let ghost before = out@;
                out.append(upper.as_str());
                proof {
                    if (ch as u32) < 128 {
                        assert(out@ =~= before.push(ascii_upper(ch)));
                    }
                }
                capitalise = false;
            } else {
                push_char(&mut out, ch);
            }
        } else {
            capitalise = true;
        }
        i = i + 1;
    }
    proof {
        assert(name@.take(i as int) =~= name@);
    }
    let body = chars_of(out.as_str());
    if body.len() > 0 && '0' <= body[0] && body[0] <= '9' {
        let mut fixed = String::from_str("A");
        fixed.append(out.as_str());
        proof {
            reveal_strlit("A");
            assert(fixed@ =~= seq!['A'] + out@);
        }
        return fixed;
    }
    if body.len() == 0 {
        return String::from_str("App");
    }
    out
}

/// A file of a new project: where it goes, what it holds, and whether it
/// is executable.
pub struct ScaffoldFile {
    pub path: String,
    pub contents: String,
    pub executable: bool,
}

/// A scaffold file as plain values.
pub open spec fn file_view(f: ScaffoldFile) -> (Seq<char>, Seq<char>, bool) {
    (f.path@, f.contents@, f.executable)
}

/// The pieces of `Package.swift`, between which the target name goes.
pub open spec fn manifest_pieces() -> Seq<Seq<char>> {
    seq![
        MANIFEST_0@,
        MANIFEST_1@,
        MANIFEST_2@,
        MANIFEST_3@,
        MANIFEST_4@,
        MANIFEST_5@,
        MANIFEST_6@,
        MANIFEST_7@,
        MANIFEST_8@,
        MANIFEST_9@,
        MANIFEST_10@,
        MANIFEST_11@,
        MANIFEST_12@,
        MANIFEST_13@,
        MANIFEST_14@,
        MANIFEST_15@,
        MANIFEST_16@,
        MANIFEST_17@,
        MANIFEST_18@,
        MANIFEST_19@,
    ]
}

/// The `Package.swift` of a project whose target is `target`.
pub open spec fn manifest_of(target: Seq<char>) -> Seq<char> {
    joined(manifest_pieces(), target)
}

/// The entry point of an app whose target is `target`.
pub open spec fn app_source_of(target: Seq<char>) -> Seq<char> {
    APP_SOURCE_0@ + target + APP_SOURCE_1@
}

/// The starting `SwiftFlow.toml` of an app called `name` whose target is
/// `target`: pinned to `pin`, or to `current`; its id is
/// `com.swiftflow.` and the target in lower case.
pub open spec fn config_text_of(name: Seq<char>, target: Seq<char>, pin: Option<Seq<char>>) -> Seq<char> {
    let version = match pin {
        Some(p) => p,
        None => "current"@,
    };
    CONFIG_0@ + version + CONFIG_1@ + ("com.swiftflow."@ + ascii_lowercase(target)) + CONFIG_2@ + name
        + CONFIG_3@
}

/// The files of a new project for a directory called `name`, pinned to
/// `pin`, in the order they are written.
pub open spec fn scaffold_of(name: Seq<char>, pin: Option<Seq<char>>) -> Seq<(Seq<char>, Seq<char>, bool)> {
    let t = swift_identifier_of(name);
    seq![
        ("Package.swift"@, manifest_of(t), false),
        ("Sources/"@ + t + "/"@ + t + "App.swift"@, app_source_of(t), false),
        ("Sources/"@ + t + "/ContentView.swift"@, CONTENT_VIEW@, false),
        ("Sources/"@ + t + "/Assets/.gitkeep"@, Seq::<char>::empty(), false),
        (".gitignore"@, GITIGNORE@, false),
        (FILE_NAME@, config_text_of(name, t, pin), false),
    ]
}

/// The `Package.swift` of a project whose target is `target`.
pub fn package_manifest(target: &str) -> (s: String)
    ensures
        s@ == manifest_of(target@),
{
    let pieces: Vec<&str> = vec![
        MANIFEST_0,
        MANIFEST_1,
        MANIFEST_2,
        MANIFEST_3,
        MANIFEST_4,
        MANIFEST_5,
        MANIFEST_6,
        MANIFEST_7,
        MANIFEST_8,
        MANIFEST_9,
        MANIFEST_10,
        MANIFEST_11,
        MANIFEST_12,
        MANIFEST_13,
        MANIFEST_14,
        MANIFEST_15,
        MANIFEST_16,
        MANIFEST_17,
        MANIFEST_18,
        MANIFEST_19,
    ];
    proof {
        assert(str_views(pieces@) =~= manifest_pieces());
    }
    join(&pieces, target)
}

/// The entry point of an app whose target is `target`.
pub fn app_source(target: &str) -> (s: String)
    ensures
        s@ == app_source_of(target@),
{
    let mut s = APP_SOURCE_0.to_owned();
    s.append(target);
    s.append(APP_SOURCE_1);
    s
}

/// The starting `SwiftFlow.toml`.
pub fn swiftflow_toml(name: &str, target: &str, pin: Option<&str>) -> (s: String)
    ensures
        s@ == config_text_of(name@, target@, opt_str_view(pin)),
{
    let version = match pin {
        Some(p) => p,
        None => "current",
    };
    let mut id = String::from_str("com.swiftflow.");
    let lower = to_ascii_lowercase_str(target);
    id.append(lower.as_str());
    let mut s = CONFIG_0.to_owned();
    s.append(version);
    s.append(CONFIG_1);
    s.append(id.as_str());
    s.append(CONFIG_2);
    s.append(name);
    s.append(CONFIG_3);
    s
}

/// `a`, then `b`, then `c` as one string.
fn concat3(a: &str, b: &str, c: &str) -> (s: String)
    ensures
        s@ == a@ + b@ + c@,
{
    let mut s = a.to_owned();
    s.append(b);
    s.append(c);
    s
}

/// The files of a new project for a directory called `name`, pinned to
/// `pin`: the manifest, the app's two sources, its asset folder, a
/// `.gitignore` and the configuration, each named after the target.
pub fn scaffold(name: &str, pin: Option<&str>) -> (files: Vec<ScaffoldFile>)
    ensures
        files@.map_values(|f: ScaffoldFile| file_view(f)) == scaffold_of(name@, opt_str_view(pin)),
{
    let target = swift_identifier(name);
    let t = target.as_str();
    let dir = concat3("Sources/", t, "/");
    let app_path = concat3(dir.as_str(), t, "App.swift");
    let view_path = concat2(dir.as_str(), "ContentView.swift");
    let keep_path = concat2(dir.as_str(), "Assets/.gitkeep");
    let mut files = vec![
        ScaffoldFile {
            path: String::from_str("Package.swift"),
            contents: package_manifest(t),
            executable: false,
        },
        ScaffoldFile { path: app_path, contents: app_source(t), executable: false },
        ScaffoldFile {
            path: view_path,
            contents: String::from_str(CONTENT_VIEW),
            executable: false,
        },
        ScaffoldFile { path: keep_path, contents: String::new(), executable: false },
        ScaffoldFile {
            path: String::from_str(".gitignore"),
            contents: String::from_str(GITIGNORE),
            executable: false,
        },
    ];
    files.push(
        ScaffoldFile {
            path: String::from_str(FILE_NAME),
            contents: swiftflow_toml(name, t, pin),
            executable: false,
        },
    );
    proof {
        let tv = target@;
        reveal_strlit("Sources/");
        reveal_strlit("/");
        reveal_strlit("/ContentView.swift");
        reveal_strlit("ContentView.swift");
        reveal_strlit("/Assets/.gitkeep");
        reveal_strlit("Assets/.gitkeep");
        assert("Sources/"@ + tv + "/"@ + "ContentView.swift"@ =~= "Sources/"@ + tv + "/ContentView.swift"@);
        assert("Sources/"@ + tv + "/"@ + "Assets/.gitkeep"@ =~= "Sources/"@ + tv + "/Assets/.gitkeep"@);
        assert(files@.map_values(|f: ScaffoldFile| file_view(f)) =~= scaffold_of(name@, opt_str_view(pin)));
    }
    files
}


/// Every platform's `SWIFTFLOW_PLATFORM` spelling parses back to it.
pub proof fn law_platform_round_trip(p: Platform)
    ensures
        parse_platform(env_spelling(p)) == Ok::<Platform, Seq<char>>(p),
{
    reveal_strlit("ios");
    reveal_strlit("desktop");
    reveal_strlit("android");
    let s = env_spelling(p);
    assert(!char_is_whitespace(s[0]));
    assert(!char_is_whitespace(s.last()));
    assert(crate::strs::first_non_white(s) == 0);
    assert(crate::strs::last_non_white_end(s) == s.len());
    assert(trimmed(s) =~= s);
    assert(ascii_lowercase(s) =~= s);
    reveal_strlit("iphone");
    reveal_strlit("mac");
    reveal_strlit("macos");
    reveal_strlit("linux");
    assert("ios"@.len() == 3 && "iphone"@.len() == 6 && "desktop"@.len() == 7);
    assert("mac"@.len() == 3 && "macos"@.len() == 5 && "linux"@.len() == 5);
    assert("android"@.len() == 7);
    if p == Platform::Desktop {
        assert("desktop"@[0] != "android"@[0]);
        assert(s != "ios"@ && s != "iphone"@);
    }
    if p == Platform::Android {
        assert("desktop"@[0] != "android"@[0]);
        assert(s != "desktop"@);
    }
}

/// The spellings a platform is known by, whatever their ASCII case and
/// surrounding white space: `ios` and `iphone` name iOS; `desktop`, `mac`,
/// `macos` and `linux` name the desktop; `android` names Android. Every
/// other name is an error.
pub proof fn law_platform_spellings(s: Seq<char>)
    ensures
        ({
            let t = ascii_lowercase(trimmed(s));
            &&& (t == "ios"@ || t == "iphone"@) ==> parse_platform(s) == Ok::<Platform, Seq<char>>(
                Platform::Ios,
            )
            &&& (t == "desktop"@ || t == "mac"@ || t == "macos"@ || t == "linux"@) ==> parse_platform(s)
                == Ok::<Platform, Seq<char>>(Platform::Desktop)
            &&& t == "android"@ ==> parse_platform(s) == Ok::<Platform, Seq<char>>(Platform::Android)
            &&& parse_platform(s) is Err <==> !(t == "ios"@ || t == "iphone"@ || t == "desktop"@ || t
                == "mac"@ || t == "macos"@ || t == "linux"@ || t == "android"@)
        }),
{
    reveal_strlit("ios");
    reveal_strlit("iphone");
    reveal_strlit("desktop");
    reveal_strlit("mac");
    reveal_strlit("macos");
    reveal_strlit("linux");
    reveal_strlit("android");
    assert("ios"@.len() == 3 && "mac"@.len() == 3 && "ios"@[0] != "mac"@[0]);
    assert("iphone"@.len() == 6 && "desktop"@.len() == 7 && "android"@.len() == 7);
    assert("desktop"@[0] != "android"@[0]);
    assert("macos"@.len() == 5 && "linux"@.len() == 5 && "macos"@[0] != "linux"@[0]);
}

/// A Swift identifier made from any directory name is never empty and
/// never starts with an ASCII digit.
pub proof fn law_swift_identifier_is_a_name(name: Seq<char>)
    ensures
        swift_identifier_of(name).len() > 0,
        !is_digit(swift_identifier_of(name)[0]),
{
    reveal_strlit("App");
    let body = ident_scan(name).0;
    if body.len() > 0 && is_digit(body[0]) {
        assert((seq!['A'] + body)[0] == 'A');
    }
}

/// What `ascii_ident_scan` makes holds only ASCII letters and digits, does
/// not start with a small letter, and is empty only while a new word is
/// still to start.
proof fn lemma_ascii_scan_shape(s: Seq<char>)
    ensures
        forall|i: int|
            0 <= i < ascii_ident_scan(s).0.len() ==> is_ascii_alnum(#[trigger] ascii_ident_scan(s).0[i]),
        ascii_ident_scan(s).0.len() > 0 ==> !('a' <= ascii_ident_scan(s).0[0] && ascii_ident_scan(s).0[0] <= 'z'),
        ascii_ident_scan(s).0.len() == 0 ==> ascii_ident_scan(s).1,
    decreases s.len(),
{
    if s.len() > 0 {
        lemma_ascii_scan_shape(s.drop_last());
        let (out, capitalise) = ascii_ident_scan(s.drop_last());
        let c = s.last();
        if is_ascii_alnum(c) {
            let n = ascii_ident_scan(s).0;
            let d = if capitalise { ascii_upper(c) } else { c };
            assert(n == out.push(d));
            assert(is_ascii_alnum(d));
            assert forall|i: int| 0 <= i < n.len() implies is_ascii_alnum(#[trigger] n[i]) by {
                if i < out.len() {
                    assert(n[i] == out[i]);
                }
            }
            if out.len() == 0 {
                assert(n[0] == ascii_upper(c));
            } else {
                assert(n[0] == out[0]);
            }
        }
    }
}

/// A run of ASCII letters and digits that starts with no small letter
/// scans to itself.
proof fn lemma_ascii_scan_of_word(w: Seq<char>, k: int)
    requires
        0 < k <= w.len(),
        forall|i: int| 0 <= i < w.len() ==> is_ascii_alnum(#[trigger] w[i]),
        !('a' <= w[0] && w[0] <= 'z'),
    ensures
        ascii_ident_scan(w.take(k)) == (w.take(k), false),
    decreases k,
{
    let t = w.take(k);
    assert(t.drop_last() =~= w.take(k - 1));
    assert(t.last() == w[k - 1]);
    if k == 1 {
        assert(w.take(0) =~= Seq::<char>::empty());
        assert(ascii_ident_scan(w.take(0)) == (Seq::<char>::empty(), true));
        assert(ascii_upper(w[0]) == w[0]);
        assert(Seq::<char>::empty().push(w[0]) =~= t);
    } else {
        lemma_ascii_scan_of_word(w, k - 1);
        assert(w.take(k - 1).push(w[k - 1]) =~= t);
    }
}

/// On ASCII names the Swift identifier is stable: it is ASCII itself, and
/// making an identifier of it gives it back.
pub proof fn law_ascii_identifier_is_stable(name: Seq<char>)
    requires
        is_ascii_str(name),
    ensures
        is_ascii_str(ascii_identifier_of(name)),
        ascii_identifier_of(ascii_identifier_of(name)) == ascii_identifier_of(name),
{
    reveal_strlit("App");
    lemma_ascii_scan_shape(name);
    let body = ascii_ident_scan(name).0;
    let r = ascii_identifier_of(name);
    assert(r.len() > 0);
    assert forall|i: int| 0 <= i < r.len() implies is_ascii_alnum(#[trigger] r[i]) by {
        if body.len() == 0 {
            assert(r == "App"@);
        } else if is_digit(body[0]) {
            assert(r == seq!['A'] + body);
            if i > 0 {
                assert(r[i] == body[i - 1]);
            }
        } else {
            assert(r == body);
        }
    }
    assert(!('a' <= r[0] && r[0] <= 'z') && !is_digit(r[0])) by {
        if body.len() == 0 {
            assert(r == "App"@);
        } else if is_digit(body[0]) {
            assert(r[0] == 'A');
        }
    }
    assert forall|i: int| 0 <= i < r.len() implies (#[trigger] r[i] as u32) < 128 by {
        assert(is_ascii_alnum(r[i]));
    }
    lemma_ascii_scan_of_word(r, r.len() as int);
    assert(r.take(r.len() as int) =~= r);
}

/// An empty `SWIFTFLOW_HOME` is no override: the home is as if it were
/// unset.
pub proof fn law_empty_override_is_ignored(user_home: Option<Seq<char>>)
    ensures
        home_of(Some(Seq::<char>::empty()), user_home) == home_of(None, user_home),
{
}

/// A blank pin selects `current`, as no pin does.
pub proof fn law_blank_pin_is_no_pin(home: Seq<char>, pin: Seq<char>)
    requires
        trimmed(pin).len() == 0,
    ensures
        framework_root_of(home, Some(pin)) == framework_root_of(home, None),
{
}

/// Different versions never share a Rust cache (for versions given as
/// relative names).
pub proof fn law_cache_keyed_by_version(home: Seq<char>, v1: Seq<char>, v2: Seq<char>)
    requires
        v1 != v2,
        v1.len() == 0 || v1[0] != '/',
        v2.len() == 0 || v2[0] != '/',
    ensures
        path_join(path_join(path_join(home, "cache"@), "rust"@), v1) != path_join(
            path_join(path_join(home, "cache"@), "rust"@),
            v2,
        ),
{
    reveal_strlit("cache");
    reveal_strlit("rust");
    let base = path_join(path_join(home, "cache"@), "rust"@);
    let c = path_join(home, "cache"@);
    assert(base.len() > 0 && base.last() == 't') by {
        if c.len() == 0 {
            assert(base == "rust"@);
        } else if c.last() == '/' {
            assert(base == c + "rust"@);
        } else {
            assert(base == c + seq!['/'] + "rust"@);
        }
    }
    let j1 = path_join(base, v1);
    let j2 = path_join(base, v2);
    assert(j1 == base + seq!['/'] + v1);
    assert(j2 == base + seq!['/'] + v2);
    if j1 == j2 {
        let n: int = base.len() as int + 1;
        assert(j1.skip(n) =~= v1);
        assert(j2.skip(n) =~= v2);
    }
}

} // verus!
