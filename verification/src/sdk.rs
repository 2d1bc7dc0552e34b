//! What an Android build reads from the installed Swift SDKs and the
//! Android SDK: the Android triples a bundle provides, the Swift version
//! of the host and of each bundle, whether they match, and whether a
//! Gradle project names its Android SDK.

use vstd::prelude::*;
use crate::strs::{
    char_is_alphanumeric, char_is_whitespace, chars_of, find_from, find_in, is_alphanumeric,
    is_digit, lemma_find_from, lines, lines_of, push_char, str_eq, string_of, string_views,
    trimmed,
};
use crate::toolchain::{starts_with, words, words_of};

verus! {

/// The kinds of character that make up the pieces a text is cut into.
#[derive(Debug, Clone, Copy, PartialEq, Eq)]
pub enum Piece {
    /// Letters, digits, hyphens and underscores: the characters of a
    /// target triple.
    Triple,
    /// ASCII digits and dots: the characters of a version number.
    Version,
}

/// Whether `c` belongs in a piece of kind `k`.
pub open spec fn in_piece(c: char, k: Piece) -> bool {
    match k {
        Piece::Triple => char_is_alphanumeric(c) || c == '-' || c == '_',
        Piece::Version => is_digit(c) || c == '.',
    }
}

/// `s` cut at every character that does not belong in a piece of kind
/// `k` (`str::split` with a predicate): empty pieces included.
pub open spec fn pieces_of(s: Seq<char>, k: Piece) -> Seq<Seq<char>>
    decreases s.len(),
{
    if s.len() == 0 {
        seq![Seq::empty()]
    } else {
        let p = pieces_of(s.drop_last(), k);
        if !in_piece(s.last(), k) {
            p.push(Seq::empty())
        } else {
            p.update(p.len() - 1, p.last().push(s.last()))
        }
    }
}

/// Whether `c` belongs in a piece of kind `k`.
fn in_piece_exec(c: char, k: Piece) -> (b: bool)
    ensures
        b == in_piece(c, k),
{
    match k {
        Piece::Triple => is_alphanumeric(c) || c == '-' || c == '_',
        Piece::Version => ('0' <= c && c <= '9') || c == '.',
    }
}

/// The pieces of `s` of kind `k`.
pub fn pieces(s: &str, k: Piece) -> (v: Vec<String>)
    ensures
        string_views(v@) == pieces_of(s@, k),
{
    let chars = chars_of(s);
    let mut out: Vec<String> = Vec::new();
    let mut cur = String::new();
    let mut i: usize = 0;
    proof {
        assert(s@.take(0) =~= Seq::<char>::empty());
        assert(string_views(out@).push(cur@) =~= seq![Seq::<char>::empty()]);
    }
    while i < chars.len()
        invariant
            chars@ == s@,
            i <= chars@.len(),
            pieces_of(s@.take(i as int), k) == string_views(out@).push(cur@),
        decreases chars@.len() - i,
    {
        let c = chars[i];
        proof {
            assert(s@.take(i + 1).drop_last() =~= s@.take(i as int));
            assert(s@.take(i + 1).last() == c);
        }
        if !in_piece_exec(c, k) {
            let ghost prev = out@;
            out.push(cur);
            proof {
                assert(string_views(out@) =~= string_views(prev).push(out@[prev.len() as int]@));
            }
            cur = String::new();
        } else {
            let ghost before = cur@;
            push_char(&mut cur, c);
            proof {
                assert(string_views(out@).push(before).update(out@.len() as int, before.push(c))
                    =~= string_views(out@).push(cur@));
            }
        }
        i = i + 1;
    }
    let ghost prev = out@;
    out.push(cur);
    proof {
        assert(s@.take(i as int) =~= s@);
        assert(string_views(out@) =~= string_views(prev).push(out@[prev.len() as int]@));
    }
    out
}

/// `t` contains `pat`.
pub open spec fn contains_seq(t: Seq<char>, pat: Seq<char>) -> bool {
    find_from(t, pat, 0) is Some
}

/// Whether `t` contains `pat`.
fn contains_str(t: &str, pat: &str) -> (b: bool)
    ensures
        b == contains_seq(t@, pat@),
{
    let tv = chars_of(t);
    let pv = chars_of(pat);
    find_in(&tv, &pv).is_some()
}

/// The pieces of `ts`, in order, that contain `pat`.
pub open spec fn keep_containing(ts: Seq<Seq<char>>, pat: Seq<char>) -> Seq<Seq<char>>
    decreases ts.len(),
{
    if ts.len() == 0 {
        seq![]
    } else {
        let prev = keep_containing(ts.drop_last(), pat);
        if contains_seq(ts.last(), pat) {
            prev.push(ts.last())
        } else {
            prev
        }
    }
}

/// The Android target triples named in `text` (a bundle's manifest), in
/// order of mention: its triple-shaped words that contain
/// `-unknown-linux-android`.
pub open spec fn android_triples_of(text: Seq<char>) -> Seq<Seq<char>> {
    keep_containing(pieces_of(text, Piece::Triple), "-unknown-linux-android"@)
}

/// The Android target triples named in `text`.
pub fn android_triples_in(text: &str) -> (v: Vec<String>)
    ensures
        string_views(v@) == android_triples_of(text@),
{
    let ps = pieces(text, Piece::Triple);
    let ghost pv = string_views(ps@);
    let mut out: Vec<String> = Vec::new();
    let mut i: usize = 0;
    proof {
        assert(pv.take(0) =~= Seq::<Seq<char>>::empty());
        assert(string_views(out@) =~= Seq::<Seq<char>>::empty());
    }
    while i < ps.len()
        invariant
            pv == string_views(ps@),
            i <= ps@.len(),
            string_views(out@) == keep_containing(pv.take(i as int), "-unknown-linux-android"@),
        decreases ps@.len() - i,
    {
        proof {
            assert(pv.take(i + 1).drop_last() =~= pv.take(i as int));
            assert(pv.take(i + 1).last() == ps@[i as int]@);
        }
        if contains_str(ps[i].as_str(), "-unknown-linux-android") {
            let ghost prev = out@;
            out.push(ps[i].clone());
            proof {
                assert(string_views(out@) =~= string_views(prev).push(ps@[i as int]@));
            }
        }
        i = i + 1;
    }
    proof {
        assert(pv.take(i as int) =~= pv);
    }
    out
}

/// `s` without its trailing characters that are not ASCII digits.
pub open spec fn drop_trailing_non_digits(s: Seq<char>) -> Seq<char>
    decreases s.len(),
{
    if s.len() > 0 && !is_digit(s.last()) {
        drop_trailing_non_digits(s.drop_last())
    } else {
        s
    }
}

/// The index of the first word equal to `w` among `ws` at or after `k`.
pub open spec fn index_of_word(ws: Seq<Seq<char>>, w: Seq<char>, k: int) -> Option<int>
    decreases ws.len() - k,
{
    if k < 0 || k >= ws.len() {
        None
    } else if ws[k] == w {
        Some(k)
    } else {
        index_of_word(ws, w, k + 1)
    }
}

/// The host Swift's version from what `swift --version` prints: the word
/// after the first word `version`, without trailing characters that are
/// not digits; `None` when there is no such word.
pub open spec fn host_swift_version_of(output: Seq<char>) -> Option<Seq<char>> {
    let ws = words_of(output);
    match index_of_word(ws, "version"@, 0) {
        Some(i) => if i + 1 < ws.len() {
            Some(drop_trailing_non_digits(ws[i + 1]))
        } else {
            None
        },
        None => None,
    }
}

/// `s` without its trailing characters that are not ASCII digits.
fn trim_trailing_non_digits(s: &str) -> (r: String)
    ensures
        r@ == drop_trailing_non_digits(s@),
{
    let v = chars_of(s);
    let mut e: usize = v.len();
    proof {
        assert(s@.take(e as int) =~= s@);
    }
    while e > 0 && !('0' <= v[e - 1] && v[e - 1] <= '9')
        invariant
            v@ == s@,
            e <= v@.len(),
            drop_trailing_non_digits(s@) == drop_trailing_non_digits(s@.take(e as int)),
        decreases e,
    {
        proof {
            assert(s@.take(e as int).drop_last() =~= s@.take(e - 1));
        }
        e = e - 1;
    }
    proof {
        assert(v@.subrange(0, e as int) =~= s@.take(e as int));
        if e == v@.len() {
            assert(s@.take(e as int) =~= s@);
        }
    }
    string_of(&v, 0, e)
}

/// The host Swift's version from the output of `swift --version`.
pub fn host_swift_version(output: &str) -> (r: Option<String>)
    ensures
        match r {
            Some(v) => host_swift_version_of(output@) == Some(v@),
            None => host_swift_version_of(output@) is None,
        },
{
    let ws = words(output);
    let ghost wv = string_views(ws@);
    let mut i: usize = 0;
    while i < ws.len()
        invariant
            wv == string_views(ws@),
            wv == words_of(output@),
            i <= ws@.len(),
            index_of_word(wv, "version"@, 0) == index_of_word(wv, "version"@, i as int),
        decreases ws@.len() - i,
    {
        proof {
            assert(wv[i as int] == ws@[i as int]@);
        }
        if str_eq(ws[i].as_str(), "version") {
            if i + 1 < ws.len() {
                proof {
                    assert(wv[i + 1] == ws@[i + 1]@);
                }
                return Some(trim_trailing_non_digits(ws[i + 1].as_str()));
            }
            return None;
        }
        i = i + 1;
    }
    None
}

/// The first of `ps` that contains a dot.
pub open spec fn first_dotted(ps: Seq<Seq<char>>) -> Option<Seq<char>>
    decreases ps.len(),
{
    if ps.len() == 0 {
        None
    } else if ps[0].contains('.') {
        Some(ps[0])
    } else {
        first_dotted(ps.drop_first())
    }
}

/// `s` without its leading and trailing dots.
pub open spec fn trim_dots(s: Seq<char>) -> Seq<char>
    decreases s.len(),
{
    if s.len() > 0 && s[0] == '.' {
        trim_dots(s.drop_first())
    } else if s.len() > 0 && s.last() == '.' {
        trim_dots(s.drop_last())
    } else {
        s
    }
}

/// The Swift version a bundle's name carries: its first run of digits and
/// dots that has a dot, without leading or trailing dots; empty when there
/// is none.
pub open spec fn bundle_swift_version_of(name: Seq<char>) -> Seq<char> {
    match first_dotted(pieces_of(name, Piece::Version)) {
        Some(p) => trim_dots(p),
        None => seq![],
    }
}

/// `s` without its leading and trailing dots.
fn trim_dots_exec(s: &str) -> (r: String)
    ensures
        r@ == trim_dots(s@),
{
    let v = chars_of(s);
    let mut a: usize = 0;
    let mut b: usize = v.len();
    proof {
        assert(v@.subrange(0, v@.len() as int) =~= s@);
    }
    while a < b && (v[a] == '.' || v[b - 1] == '.')
        invariant
            v@ == s@,
            a <= b <= v@.len(),
            trim_dots(s@) == trim_dots(v@.subrange(a as int, b as int)),
        decreases b - a,
    {
        let ghost t = v@.subrange(a as int, b as int);
        if v[a] == '.' {
            proof {
                assert(t[0] == v@[a as int]);
                assert(t.drop_first() =~= v@.subrange(a + 1, b as int));
            }
            a = a + 1;
        } else {
            proof {
                assert(t[0] == v@[a as int]);
                assert(t.last() == v@[b - 1]);
                assert(t.drop_last() =~= v@.subrange(a as int, b - 1));
            }
            b = b - 1;
        }
    }
    proof {
        let t = v@.subrange(a as int, b as int);
        if a < b {
            assert(t[0] == v@[a as int]);
            assert(t.last() == v@[b - 1]);
        }
    }
    string_of(&v, a, b)
}

/// The Swift version a bundle's name carries, or an empty string.
pub fn bundle_swift_version(name: &str) -> (r: String)
    ensures
        r@ == bundle_swift_version_of(name@),
{
    let ps = pieces(name, Piece::Version);
    let ghost pv = string_views(ps@);
    let mut i: usize = 0;
    proof {
        assert(pv.skip(0) =~= pv);
    }
    while i < ps.len()
        invariant
            pv == string_views(ps@),
            pv == pieces_of(name@, Piece::Version),
            i <= ps@.len(),
            first_dotted(pv) == first_dotted(pv.skip(i as int)),
        decreases ps@.len() - i,
    {
        proof {
            assert(pv.skip(i as int)[0] == ps@[i as int]@);
            assert(pv.skip(i as int).drop_first() =~= pv.skip(i + 1));
        }
        if crate::strs::contains_char(ps[i].as_str(), '.') {
            proof {
                assert(first_dotted(pv.skip(i as int)) == Some(ps@[i as int]@));
                assert(pv == pieces_of(name@, Piece::Version));
            }
            return trim_dots_exec(ps[i].as_str());
        }
        i = i + 1;
    }
    proof {
        assert(pv.skip(i as int).len() == 0);
    }
    String::new()
}

/// A bundle that matters for the toolchain check: an Android bundle whose
/// name carries a version.
pub open spec fn relevant_bundle(name: Seq<char>) -> bool {
    contains_seq(name, "android"@) && bundle_swift_version_of(name).len() > 0
}

/// The version of the last relevant bundle of `names`.
pub open spec fn last_relevant_version(names: Seq<Seq<char>>) -> Option<Seq<char>>
    decreases names.len(),
{
    if names.len() == 0 {
        None
    } else if relevant_bundle(names.last()) {
        Some(bundle_swift_version_of(names.last()))
    } else {
        last_relevant_version(names.drop_last())
    }
}

/// The Android SDK version that does not match the host's Swift `host`,
/// given the installed bundles' names: none when some relevant bundle
/// matches the host, else that of the last relevant bundle, if any.
pub open spec fn toolchain_mismatch_of(host: Seq<char>, names: Seq<Seq<char>>) -> Option<Seq<char>> {
    if exists|i: int|
        0 <= i < names.len() && relevant_bundle(#[trigger] names[i])
            && bundle_swift_version_of(names[i]) == host {
        None
    } else {
        last_relevant_version(names)
    }
}

proof fn lemma_last_relevant_version(names: Seq<Seq<char>>)
    ensures
        match last_relevant_version(names) {
            Some(v) => exists|i: int|
                0 <= i < names.len() && relevant_bundle(#[trigger] names[i])
                    && bundle_swift_version_of(names[i]) == v,
            None => forall|i: int| 0 <= i < names.len() ==> !relevant_bundle(#[trigger] names[i]),
        },
    decreases names.len(),
{
    if names.len() > 0 {
        lemma_last_relevant_version(names.drop_last());
        if relevant_bundle(names.last()) {
            assert(relevant_bundle(names[names.len() - 1]));
        } else {
            match last_relevant_version(names.drop_last()) {
                Some(v) => {
                    let i = choose|i: int|
                        0 <= i < names.drop_last().len() && relevant_bundle(#[trigger] names.drop_last()[i])
                            && bundle_swift_version_of(names.drop_last()[i]) == v;
                    assert(names[i] == names.drop_last()[i]);
                },
                None => {
                    assert forall|i: int| 0 <= i < names.len() implies !relevant_bundle(#[trigger] names[i]) by {
                        if i < names.len() - 1 {
                            assert(names[i] == names.drop_last()[i]);
                        }
                    }
                },
            }
        }
    }
}

/// An installed Android SDK whose version is the host's is never a
/// mismatch, whatever else is installed.
pub proof fn law_a_matching_sdk_is_no_mismatch(host: Seq<char>, names: Seq<Seq<char>>, i: int)
    requires
        0 <= i < names.len(),
        relevant_bundle(names[i]),
        bundle_swift_version_of(names[i]) == host,
    ensures
        toolchain_mismatch_of(host, names) is None,
{
}

/// A mismatch is reported exactly when some versioned Android SDK is
/// installed and none of them has the host's version; the version
/// reported is that of an installed Android SDK, and differs from the
/// host's.
pub proof fn law_mismatch_names_an_installed_sdk(host: Seq<char>, names: Seq<Seq<char>>)
    ensures
        toolchain_mismatch_of(host, names) is Some <==> ((exists|i: int|
            0 <= i < names.len() && #[trigger] relevant_bundle(names[i])) && forall|i: int|
            0 <= i < names.len() && #[trigger] relevant_bundle(names[i]) ==> bundle_swift_version_of(
                names[i],
            ) != host),
        toolchain_mismatch_of(host, names) matches Some(v) ==> v != host && exists|i: int|
            0 <= i < names.len() && #[trigger] relevant_bundle(names[i]) && bundle_swift_version_of(
                names[i],
            ) == v,
{
    lemma_last_relevant_version(names);
    if toolchain_mismatch_of(host, names) is Some {
        let v = toolchain_mismatch_of(host, names)->0;
        let i = choose|i: int|
            0 <= i < names.len() && relevant_bundle(#[trigger] names[i]) && bundle_swift_version_of(
                names[i],
            ) == v;
        assert(relevant_bundle(names[i]));
    }
}

/// The Android SDK version that does not match the host's Swift, if any.
pub fn toolchain_mismatch(host: &str, names: &Vec<String>) -> (r: Option<String>)
    ensures
        match r {
            Some(v) => toolchain_mismatch_of(host@, string_views(names@)) == Some(v@),
            None => toolchain_mismatch_of(host@, string_views(names@)) is None,
        },
{
    let ghost nv = string_views(names@);
    let mut mismatch: Option<String> = None;
    let mut i: usize = 0;
    proof {
        assert(nv.take(0) =~= Seq::<Seq<char>>::empty());
    }
    while i < names.len()
        invariant
            nv == string_views(names@),
            i <= names@.len(),
            forall|j: int|
                0 <= j < i ==> !(relevant_bundle(#[trigger] nv[j]) && bundle_swift_version_of(nv[j])
                    == host@),
            match mismatch {
                Some(v) => last_relevant_version(nv.take(i as int)) == Some(v@),
                None => last_relevant_version(nv.take(i as int)) is None,
            },
        decreases names@.len() - i,
    {
        let name = names[i].as_str();
        proof {
            assert(nv[i as int] == name@);
            assert(nv.take(i + 1).drop_last() =~= nv.take(i as int));
            assert(nv.take(i + 1).last() == name@);
        }
        if contains_str(name, "android") {
            let sdk = bundle_swift_version(name);
            if !sdk.as_str().is_empty() {
                if str_eq(sdk.as_str(), host) {
                    proof {
                        assert(relevant_bundle(nv[i as int]));
                    }
                    return None;
                }
                mismatch = Some(sdk);
            }
        }
        i = i + 1;
    }
    proof {
        assert(nv.take(i as int) =~= nv);
    }
    mismatch
}

/// The report for a host Swift `host` that does not match the Android
/// SDK's `sdk`.
pub open spec fn toolchain_mismatch_message(host: Seq<char>, sdk: Seq<char>) -> Seq<char> {
    "Toolchain mismatch: host Swift is "@ + host + ", the Android SDK is "@ + sdk
        + ".\n\n  A .swiftmodule is only readable by the compiler version that wrote\n  it, and the SDK ships a prebuilt Foundation. These have to be the\n  same Swift release; there is no compatibility window.\n\n  Either install a "@
        + host + " Android SDK, or move the host to "@ + sdk + ":\n\n    swiftly install "@ + sdk
        + " && swiftly use "@ + sdk
        + "\n\n  Official Android support starts at Swift 6.3, so upgrading the host\n  is usually the shorter path. For an older host, finagolfin's\n  community SDKs cover earlier releases:\n    https://github.com/finagolfin/swift-android-sdk/releases\n  Those are built for API 24 — set SWIFTFLOW_ANDROID_API=24 and lower\n  minSdk in android/app/build.gradle.kts to match."@
}

/// The report for a toolchain mismatch.
pub fn toolchain_mismatch_error(host: &str, sdk: &str) -> (m: String)
    ensures
        m@ == toolchain_mismatch_message(host@, sdk@),
{
    let mut m = String::from_str("Toolchain mismatch: host Swift is ");
    m.append(host);
    m.append(", the Android SDK is ");
    m.append(sdk);
    m.append(
        ".\n\n  A .swiftmodule is only readable by the compiler version that wrote\n  it, and the SDK ships a prebuilt Foundation. These have to be the\n  same Swift release; there is no compatibility window.\n\n  Either install a ",
    );
    m.append(host);
    m.append(" Android SDK, or move the host to ");
    m.append(sdk);
    m.append(":\n\n    swiftly install ");
    m.append(sdk);
    m.append(" && swiftly use ");
    m.append(sdk);
    m.append(
        "\n\n  Official Android support starts at Swift 6.3, so upgrading the host\n  is usually the shorter path. For an older host, finagolfin's\n  community SDKs cover earlier releases:\n    https://github.com/finagolfin/swift-android-sdk/releases\n  Those are built for API 24 — set SWIFTFLOW_ANDROID_API=24 and lower\n  minSdk in android/app/build.gradle.kts to match.",
    );
    m
}

/// Whether a `local.properties` file names the Android SDK: one of its
/// lines, without leading white space, starts with `sdk.dir=`.
pub open spec fn declares_sdk_dir_of(text: Seq<char>) -> bool {
    exists|i: int|
        0 <= i < lines_of(text).len() && starts_with(
            #[trigger] lines_of(text)[i].skip(crate::strs::first_non_white(lines_of(text)[i])),
            "sdk.dir="@,
        )
}

/// `s` without its leading white space.
fn trim_start(s: &str) -> (r: Vec<char>)
    ensures
        r@ == s@.skip(crate::strs::first_non_white(s@)),
{
    let v = chars_of(s);
    let mut k: usize = 0;
    while k < v.len() && crate::strs::is_whitespace(v[k])
        invariant
            v@ == s@,
            k <= v@.len(),
            forall|j: int| 0 <= j < k ==> char_is_whitespace(#[trigger] v@[j]),
        decreases v@.len() - k,
    {
        k = k + 1;
    }
    proof {
        crate::strs::lemma_first_non_white_at(s@, k as int);
    }
    let mut r: Vec<char> = Vec::new();
    let mut i: usize = k;
    while i < v.len()
        invariant
            v@ == s@,
            k <= i <= v@.len(),
            r@ == s@.subrange(k as int, i as int),
        decreases v@.len() - i,
    {
        r.push(v[i]);
        proof {
            assert(s@.subrange(k as int, i + 1) =~= s@.subrange(k as int, i as int).push(s@[i as int]));
        }
        i = i + 1;
    }
    proof {
        assert(s@.subrange(k as int, i as int) =~= s@.skip(k as int));
    }
    r
}

/// Whether a `local.properties` file names the Android SDK.
pub fn declares_sdk_dir(text: &str) -> (b: bool)
    ensures
        b == declares_sdk_dir_of(text@),
{
    let ls = lines(text);
    let ghost lv = lines_of(text@);
    let prefix = chars_of("sdk.dir=");
    let mut i: usize = 0;
    while i < ls.len()
        invariant
            string_views(ls@) == lv,
            lv == lines_of(text@),
            prefix@ == "sdk.dir="@,
            i <= ls@.len(),
            forall|j: int|
                0 <= j < i ==> !starts_with(
                    #[trigger] lv[j].skip(crate::strs::first_non_white(lv[j])),
                    "sdk.dir="@,
                ),
        decreases ls@.len() - i,
    {
        proof {
            assert(lv[i as int] == ls@[i as int]@);
        }
        let rest = trim_start(ls[i].as_str());
        if crate::strs::occurs_here(&rest, &prefix, 0) {
            proof {
                assert(starts_with(lines_of(text@)[i as int].skip(crate::strs::first_non_white(lines_of(text@)[i as int])), "sdk.dir="@));
            }
            return true;
        }
        i = i + 1;
    }
    false
}


/// The steps that set up a bundle's NDK sysroot: only the setup script
/// when `ANDROID_NDK_HOME` is set, else how to fetch an NDK first.
pub open spec fn ndk_setup_steps(ndk_set: bool) -> Seq<char> {
    if ndk_set {
        "  ./scripts/setup-android-sdk.sh        # ANDROID_NDK_HOME is already set"@
    } else {
        "\n  # NDK r27d or later. If you already have one, just point\n  # ANDROID_NDK_HOME at it and skip the download.\n  curl -fSL -o ndk.zip \\\n    https://dl.google.com/android/repository/android-ndk-r27d-$(uname -s | tr 'A-Z' 'a-z').zip\n  unzip -qo ndk.zip\n  export ANDROID_NDK_HOME=$PWD/android-ndk-r27d\n  ./scripts/setup-android-sdk.sh"@
    }
}

/// The report for a Swift SDK bundle at `bundle` whose NDK sysroot has
/// not been set up.
pub open spec fn ndk_sysroot_message(bundle: Seq<char>, ndk_set: bool) -> Seq<char> {
    "The Swift SDK has no ndk-sysroot — its one-time NDK setup hasn't run.\n\n  The bundle ships without one because Google's NDK can't be\n  redistributed. Without it there is no libc and no C headers, so\n  the first #include fails and it reads like a broken checkout.\n\n  cd "@
        + bundle + "\n"@ + ndk_setup_steps(ndk_set)
        + "\n\n  Then build again. Set ANDROID_NDK_HOME in your shell profile too —\n  the packaging step needs it for libc++_shared.so."@
}

/// The report for a bundle whose NDK sysroot is missing.
pub fn ndk_sysroot_error(bundle: &str, ndk_set: bool) -> (m: String)
    ensures
        m@ == ndk_sysroot_message(bundle@, ndk_set),
{
    let mut m = String::from_str(
        "The Swift SDK has no ndk-sysroot — its one-time NDK setup hasn't run.\n\n  The bundle ships without one because Google's NDK can't be\n  redistributed. Without it there is no libc and no C headers, so\n  the first #include fails and it reads like a broken checkout.\n\n  cd ",
    );
    m.append(bundle);
    m.append("\n");
    if ndk_set {
        m.append("  ./scripts/setup-android-sdk.sh        # ANDROID_NDK_HOME is already set");
    } else {
        m.append(
            "\n  # NDK r27d or later. If you already have one, just point\n  # ANDROID_NDK_HOME at it and skip the download.\n  curl -fSL -o ndk.zip \\\n    https://dl.google.com/android/repository/android-ndk-r27d-$(uname -s | tr 'A-Z' 'a-z').zip\n  unzip -qo ndk.zip\n  export ANDROID_NDK_HOME=$PWD/android-ndk-r27d\n  ./scripts/setup-android-sdk.sh",
        );
    }
    m.append(
        "\n\n  Then build again. Set ANDROID_NDK_HOME in your shell profile too —\n  the packaging step needs it for libc++_shared.so.",
    );
    m
}

} // verus!
