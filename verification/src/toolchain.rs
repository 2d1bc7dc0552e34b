//! What a build reads back from the tools around it: the functions a C
//! header declares, the symbols an archive defines, the `@main` type of a
//! Swift package, the application id of a Gradle project, and the host's
//! target triple.

use vstd::prelude::*;
use crate::config::{is_segment_char, opt_str_view};
use crate::strs::{
    char_is_alphanumeric, char_is_whitespace, chars_of, find_from, find_in, lemma_find_from, is_alphanumeric,
    is_whitespace, join, joined, lines, lines_of, occurs_at, push_char, str_eq, string_of,
    string_views, trim, trimmed,
};

verus! {

/// `s` starts with `p`.
pub open spec fn starts_with(s: Seq<char>, p: Seq<char>) -> bool {
    occurs_at(s, p, 0)
}

/// Whether `v` starts with `p`.
fn has_prefix(v: &Vec<char>, p: &str) -> (b: bool)
    ensures
        b == starts_with(v@, p@),
{
    let pv = chars_of(p);
    if pv.len() > v.len() {
        return false;
    }
    let mut j: usize = 0;
    while j < pv.len()
        invariant
            pv@ == p@,
            pv@.len() <= v@.len(),
            j <= pv@.len(),
            forall|k: int| 0 <= k < j ==> v@[k] == pv@[k],
        decreases pv@.len() - j,
    {
        if v[j] != pv[j] {
            proof {
                assert(v@.subrange(0, pv@.len() as int)[j as int] != pv@[j as int]);
            }
            return false;
        }
        j = j + 1;
    }
    proof {
        assert(v@.subrange(0, pv@.len() as int) =~= pv@);
    }
    true
}

/// Whether `v` holds a string equal to `s`.
pub fn contains_string(v: &Vec<String>, s: &str) -> (b: bool)
    ensures
        b == string_views(v@).contains(s@),
{
    let mut i: usize = 0;
    while i < v.len()
        invariant
            i <= v@.len(),
            forall|j: int| 0 <= j < i ==> v@[j]@ != s@,
        decreases v@.len() - i,
    {
        if str_eq(v[i].as_str(), s) {
            proof {
                assert(string_views(v@)[i as int] == s@);
            }
            return true;
        }
        i = i + 1;
    }
    proof {
        if string_views(v@).contains(s@) {
            let j = choose|j: int| 0 <= j < v@.len() && string_views(v@)[j] == s@;
            assert(v@[j]@ == s@);
        }
    }
    false
}

// ---------------------------------------------------------------------
// The functions a C header declares.

/// The length of the run of ASCII letters, digits and underscores that
/// starts `s`.
pub open spec fn word_prefix_len(s: Seq<char>) -> nat
    decreases s.len(),
{
    if s.len() == 0 || !is_segment_char(s[0]) {
        0
    } else {
        1 + word_prefix_len(s.drop_first())
    }
}

proof fn lemma_word_prefix_len(s: Seq<char>, k: int)
    requires
        0 <= k <= s.len(),
        forall|j: int| 0 <= j < k ==> is_segment_char(#[trigger] s[j]),
        k == s.len() || !is_segment_char(s[k]),
    ensures
        word_prefix_len(s) == k,
    decreases k,
{
    if k > 0 {
        assert forall|j: int| 0 <= j < k - 1 implies is_segment_char(#[trigger] s.drop_first()[j]) by {
            assert(s.drop_first()[j] == s[j + 1]);
        }
        if k < s.len() {
            assert(s.drop_first()[k - 1] == s[k]);
        }
        lemma_word_prefix_len(s.drop_first(), k - 1);
    }
}

/// A header line that cannot start a declaration: blank, indented, a
/// comment or a preprocessor line.
pub open spec fn skipped_line(l: Seq<char>) -> bool {
    l.len() == 0 || l[0] == ' ' || l[0] == '\t' || starts_with(l, "//"@) || starts_with(l, "/*"@)
        || l[0] == '*' || l[0] == '#'
}

/// The package whose entry points carry the prefix of `name`, if any.
pub open spec fn owner_of(name: Seq<char>) -> Option<Seq<char>> {
    if starts_with(name, "sf_desktop_"@) {
        Some("swiftflow_desktop"@)
    } else if starts_with(name, "sf_android_"@) {
        Some("swiftflow_android"@)
    } else {
        None
    }
}

/// The function a header line declares for `package`: the identifier that
/// starts at the first `sf_` of the line, at least four characters long
/// and followed at once by `(`, unless it is another host's entry point.
pub open spec fn declared_in_line(l: Seq<char>, package: Seq<char>) -> Option<Seq<char>> {
    if skipped_line(l) {
        None
    } else {
        match find_from(l, "sf_"@, 0) {
            None => None,
            Some(start) => {
                let name = l.subrange(start, start + word_prefix_len(l.skip(start)));
                let end = start + name.len();
                if name.len() < 4 || !(end < l.len() && l[end] == '(') {
                    None
                } else if owner_of(name) is Some && owner_of(name)->0 != package {
                    None
                } else {
                    Some(name)
                }
            },
        }
    }
}

/// The functions the header lines `ls` declare for `package`, each once,
/// in the order of their first declaration.
pub open spec fn declared_of(ls: Seq<Seq<char>>, package: Seq<char>) -> Seq<Seq<char>>
    decreases ls.len(),
{
    if ls.len() == 0 {
        seq![]
    } else {
        let prev = declared_of(ls.drop_last(), package);
        match declared_in_line(ls.last(), package) {
            Some(n) => if prev.contains(n) {
                prev
            } else {
                prev.push(n)
            },
            None => prev,
        }
    }
}

/// The function one header line declares for `package`.
fn declared_in(line: &str, package: &str) -> (r: Option<String>)
    ensures
        match r {
            Some(n) => declared_in_line(line@, package@) == Some(n@),
            None => declared_in_line(line@, package@) is None,
        },
{
    let l = chars_of(line);
    if l.len() == 0 || l[0] == ' ' || l[0] == '\t' || has_prefix(&l, "//") || has_prefix(&l, "/*")
        || l[0] == '*' || l[0] == '#' {
        return None;
    }
    let pat = chars_of("sf_");
    let start = match find_in(&l, &pat) {
        Some(s) => s,
        None => {
            return None;
        },
    };
    proof {
        lemma_find_from(l@, pat@, 0);
    }
    let ghost rest = l@.skip(start as int);
    let mut end = start;
    while end < l.len() && crate::config::is_segment_char_exec(l[end])
        invariant
            start <= end <= l@.len(),
            forall|j: int| start <= j < end ==> is_segment_char(#[trigger] l@[j]),
        decreases l@.len() - end,
    {
        end = end + 1;
    }
    proof {
        assert forall|j: int| 0 <= j < end - start implies is_segment_char(#[trigger] rest[j]) by {
            assert(rest[j] == l@[start + j]);
        }
        if end < l@.len() {
            assert(rest[end - start] == l@[end as int]);
        }
        lemma_word_prefix_len(rest, end - start);
    }
    if end - start < 4 || !(end < l.len() && l[end] == '(') {
        return None;
    }
    let name = string_of(&l, start, end);
    let n = chars_of(name.as_str());
    if has_prefix(&n, "sf_desktop_") {
        if !str_eq(package, "swiftflow_desktop") {
            return None;
        }
    } else if has_prefix(&n, "sf_android_") {
        if !str_eq(package, "swiftflow_android") {
            return None;
        }
    }
    Some(name)
}

/// The functions `header` declares that `package` must define: those of
/// the shared core, and its own host entry points but no other host's,
/// each once, in order.
pub fn declared_symbols(header: &str, package: &str) -> (found: Vec<String>)
    ensures
        string_views(found@) == declared_of(lines_of(header@), package@),
{
    let ls = lines(header);
    let ghost lv = lines_of(header@);
    let mut found: Vec<String> = Vec::new();
    let mut i: usize = 0;
    proof {
        assert(lv.take(0) =~= Seq::<Seq<char>>::empty());
    }
    while i < ls.len()
        invariant
            string_views(ls@) == lv,
            i <= ls@.len(),
            string_views(found@) == declared_of(lv.take(i as int), package@),
        decreases ls@.len() - i,
    {
        proof {
            assert(lv[i as int] == ls@[i as int]@);
            assert(lv.take(i + 1).drop_last() =~= lv.take(i as int));
            assert(lv.take(i + 1).last() == lv[i as int]);
        }
        match declared_in(ls[i].as_str(), package) {
            Some(name) => {
                if !contains_string(&found, name.as_str()) {
                    let ghost prev = found@;
                    found.push(name);
                    proof {
                        assert(string_views(found@) =~= string_views(prev).push(
                            found@[prev.len() as int]@,
                        ));
                    }
                }
            },
            None => {},
        }
        i = i + 1;
    }
    proof {
        assert(lv.take(i as int) =~= lv);
    }
    found
}


/// The functions found for a package are each listed once, and none of
/// them is another host's entry point.
pub proof fn law_declared_symbols_are_single_and_owned(ls: Seq<Seq<char>>, package: Seq<char>)
    ensures
        forall|i: int, j: int|
            0 <= i < j < declared_of(ls, package).len() ==> #[trigger] declared_of(ls, package)[i]
                != #[trigger] declared_of(ls, package)[j],
        forall|i: int|
            0 <= i < declared_of(ls, package).len() ==> (owner_of(#[trigger] declared_of(ls, package)[i]) is None
                || owner_of(declared_of(ls, package)[i]) == Some(package)),
    decreases ls.len(),
{
    if ls.len() > 0 {
        law_declared_symbols_are_single_and_owned(ls.drop_last(), package);
        let prev = declared_of(ls.drop_last(), package);
        match declared_in_line(ls.last(), package) {
            Some(n) => {
                if !prev.contains(n) {
                    let cur = prev.push(n);
                    assert forall|i: int, j: int| 0 <= i < j < cur.len() implies #[trigger] cur[i]
                        != #[trigger] cur[j] by {
                        if j == prev.len() {
                            assert(cur[i] == prev[i]);
                        } else {
                            assert(cur[i] == prev[i] && cur[j] == prev[j]);
                        }
                    }
                    assert forall|i: int| 0 <= i < cur.len() implies (owner_of(#[trigger] cur[i]) is None
                        || owner_of(cur[i]) == Some(package)) by {
                        if i < prev.len() {
                            assert(cur[i] == prev[i]);
                        }
                    }
                }
            },
            None => {},
        }
    }
}

// ---------------------------------------------------------------------
// The symbols an archive defines, read from `nm -g`.

/// The words of `s` as they stand so far, and the word in progress.
pub open spec fn words_scan(s: Seq<char>) -> (Seq<Seq<char>>, Seq<char>)
    decreases s.len(),
{
    if s.len() == 0 {
        (seq![], seq![])
    } else {
        let (done, cur) = words_scan(s.drop_last());
        let c = s.last();
        if char_is_whitespace(c) {
            (if cur.len() > 0 {
                done.push(cur)
            } else {
                done
            }, seq![])
        } else {
            (done, cur.push(c))
        }
    }
}

/// The white-space separated words of `s` (`str::split_whitespace`).
pub open spec fn words_of(s: Seq<char>) -> Seq<Seq<char>> {
    let (done, cur) = words_scan(s);
    if cur.len() > 0 {
        done.push(cur)
    } else {
        done
    }
}

/// The words of `s`.
pub fn words(s: &str) -> (v: Vec<String>)
    ensures
        string_views(v@) == words_of(s@),
{
    let chars = chars_of(s);
    let mut out: Vec<String> = Vec::new();
    let mut cur = String::new();
    let mut i: usize = 0;
    proof {
        assert(s@.take(0) =~= Seq::<char>::empty());
        assert(string_views(out@) =~= Seq::<Seq<char>>::empty());
    }
    while i < chars.len()
        invariant
            chars@ == s@,
            i <= chars@.len(),
            words_scan(s@.take(i as int)) == (string_views(out@), cur@),
        decreases chars@.len() - i,
    {
        let c = chars[i];
        proof {
            assert(s@.take(i + 1).drop_last() =~= s@.take(i as int));
            assert(s@.take(i + 1).last() == c);
        }
        if is_whitespace(c) {
            if !cur.as_str().is_empty() {
                let ghost prev = out@;
                out.push(cur);
                proof {
                    assert(string_views(out@) =~= string_views(prev).push(out@[prev.len() as int]@));
                }
            }
            cur = String::new();
        } else {
            push_char(&mut cur, c);
        }
        i = i + 1;
    }
    proof {
        assert(s@.take(i as int) =~= s@);
    }
    if !cur.as_str().is_empty() {
        let ghost prev = out@;
        out.push(cur);
        proof {
            assert(string_views(out@) =~= string_views(prev).push(out@[prev.len() as int]@));
        }
    }
    out
}

/// `n` without one leading underscore (Mach-O's symbol prefix).
pub open spec fn strip_underscore(n: Seq<char>) -> Seq<char> {
    if n.len() > 0 && n[0] == '_' {
        n.drop_first()
    } else {
        n
    }
}

/// Whether one line of `nm` output defines `symbol`: its last word is the
/// symbol, with or without a leading underscore, and the word before it
/// is a kind other than `U`/`u`, which marks a symbol wanted, not defined.
pub open spec fn defines_in_line(l: Seq<char>, symbol: Seq<char>) -> bool {
    let w = words_of(l);
    w.len() >= 2 && strip_underscore(w.last()) == symbol && w[w.len() - 2] != "U"@ && w[w.len()
        - 2] != "u"@
}

/// A line that marks a symbol as wanted (`U` or `u`) never counts as
/// defining it.
pub proof fn law_wanted_is_not_defined(l: Seq<char>, symbol: Seq<char>)
    ensures
        words_of(l).len() >= 2 && (words_of(l)[words_of(l).len() - 2] == "U"@ || words_of(l)[words_of(
            l,
        ).len() - 2] == "u"@) ==> !defines_in_line(l, symbol),
{
}

/// Whether some line of the `nm` output `listing` defines `symbol`.
pub open spec fn defines_spec(listing: Seq<char>, symbol: Seq<char>) -> bool {
    exists|i: int| 0 <= i < lines_of(listing).len() && defines_in_line(#[trigger] lines_of(listing)[i], symbol)
}

/// Whether one line of `nm` output defines `symbol`.
fn defines_line(line: &str, symbol: &str) -> (b: bool)
    ensures
        b == defines_in_line(line@, symbol@),
{
    let w = words(line);
    if w.len() < 2 {
        return false;
    }
    let name = chars_of(w[w.len() - 1].as_str());
    let bare = if name.len() > 0 && name[0] == '_' {
        string_of(&name, 1, name.len())
    } else {
        string_of(&name, 0, name.len())
    };
    proof {
        assert(name@.subrange(1, name@.len() as int) =~= name@.drop_first());
        assert(name@.subrange(0, name@.len() as int) =~= name@);
    }
    let kind = w[w.len() - 2].as_str();
    str_eq(bare.as_str(), symbol) && !str_eq(kind, "U") && !str_eq(kind, "u")
}

/// Whether the `nm` output `listing` shows `symbol` defined.
pub fn defines(listing: &str, symbol: &str) -> (b: bool)
    ensures
        b == defines_spec(listing@, symbol@),
{
    let ls = lines(listing);
    let ghost lv = lines_of(listing@);
    let mut i: usize = 0;
    while i < ls.len()
        invariant
            string_views(ls@) == lv,
            lv == lines_of(listing@),
            i <= ls@.len(),
            forall|j: int| 0 <= j < i ==> !defines_in_line(#[trigger] lv[j], symbol@),
        decreases ls@.len() - i,
    {
        proof {
            assert(lv[i as int] == ls@[i as int]@);
        }
        if defines_line(ls[i].as_str(), symbol) {
            proof {
                assert(defines_in_line(lines_of(listing@)[i as int], symbol@));
            }
            return true;
        }
        i = i + 1;
    }
    false
}

/// The symbols of `expected` that `listing` does not show defined, in order.
pub open spec fn missing_of(expected: Seq<Seq<char>>, listing: Seq<char>) -> Seq<Seq<char>>
    decreases expected.len(),
{
    if expected.len() == 0 {
        seq![]
    } else {
        let prev = missing_of(expected.drop_last(), listing);
        if defines_spec(listing, expected.last()) {
            prev
        } else {
            prev.push(expected.last())
        }
    }
}

/// The symbols of `expected` that the `nm` output `listing` does not show
/// defined, in order.
pub fn missing_exports(expected: &Vec<String>, listing: &str) -> (m: Vec<String>)
    ensures
        string_views(m@) == missing_of(string_views(expected@), listing@),
{
    let ghost ev = string_views(expected@);
    let mut m: Vec<String> = Vec::new();
    let mut i: usize = 0;
    proof {
        assert(ev.take(0) =~= Seq::<Seq<char>>::empty());
        assert(string_views(m@) =~= Seq::<Seq<char>>::empty());
    }
    while i < expected.len()
        invariant
            ev == string_views(expected@),
            i <= expected@.len(),
            string_views(m@) == missing_of(ev.take(i as int), listing@),
        decreases expected@.len() - i,
    {
        proof {
            assert(ev.take(i + 1).drop_last() =~= ev.take(i as int));
            assert(ev.take(i + 1).last() == expected@[i as int]@);
        }
        if !defines(listing, expected[i].as_str()) {
            let ghost prev = m@;
            m.push(expected[i].clone());
            proof {
                assert(string_views(m@) =~= string_views(prev).push(expected@[i as int]@));
            }
        }
        i = i + 1;
    }
    proof {
        assert(ev.take(i as int) =~= ev);
    }
    m
}


/// The report for an archive that lacks functions its header declares:
/// which header, how many, which archive, the missing names one per line,
/// and the build directory to delete.
pub open spec fn exports_message(
    header: Seq<char>,
    archive: Seq<char>,
    target_dir: Seq<char>,
    missing: Seq<Seq<char>>,
) -> Seq<char> {
    header + " declares "@ + (if missing.len() == 1 {
        "a function"@
    } else {
        "functions"@
    }) + " that "@ + archive + " does not define:\n  "@ + joined(missing, "\n  "@)
        + "\n\n  The C header and the Rust archive have drifted apart. Usually the archive is\n  stale — cargo reused output from before those functions existed. Delete it\n  and build again:\n\n    rm -rf "@
        + target_dir + "\n"@
}

/// The report for an archive that lacks the functions `missing`.
pub fn exports_error(header: &str, archive: &str, target_dir: &str, missing: &Vec<String>) -> (m: String)
    ensures
        m@ == exports_message(header@, archive@, target_dir@, string_views(missing@)),
{
    let mut names: Vec<&str> = Vec::new();
    let mut i: usize = 0;
    while i < missing.len()
        invariant
            i <= missing@.len(),
            names@.len() == i,
            forall|j: int| 0 <= j < i ==> #[trigger] names@[j]@ == missing@[j]@,
        decreases missing@.len() - i,
    {
        names.push(missing[i].as_str());
        i = i + 1;
    }
    proof {
        assert(crate::strs::str_views(names@) =~= string_views(missing@));
    }
    let mut m = header.to_owned();
    m.append(" declares ");
    if missing.len() == 1 {
        m.append("a function");
    } else {
        m.append("functions");
    }
    m.append(" that ");
    m.append(archive);
    m.append(" does not define:\n  ");
    let listed = join(&names, "\n  ");
    m.append(listed.as_str());
    m.append(
        "\n\n  The C header and the Rust archive have drifted apart. Usually the archive is\n  stale — cargo reused output from before those functions existed. Delete it\n  and build again:\n\n    rm -rf ",
    );
    m.append(target_dir);
    m.append("\n");
    m
}

// ---------------------------------------------------------------------
// The `@main` type of a Swift package.

/// The length of the run of letters, digits and underscores that starts
/// `s` (letters and digits in the Unicode sense).
pub open spec fn name_prefix_len(s: Seq<char>) -> nat
    decreases s.len(),
{
    if s.len() == 0 || !(char_is_alphanumeric(s[0]) || s[0] == '_') {
        0
    } else {
        1 + name_prefix_len(s.drop_first())
    }
}

proof fn lemma_name_prefix_len(s: Seq<char>, k: int)
    requires
        0 <= k <= s.len(),
        forall|j: int| 0 <= j < k ==> (char_is_alphanumeric(#[trigger] s[j]) || s[j] == '_'),
        k == s.len() || !(char_is_alphanumeric(s[k]) || s[k] == '_'),
    ensures
        name_prefix_len(s) == k,
    decreases k,
{
    if k > 0 {
        assert forall|j: int| 0 <= j < k - 1 implies (char_is_alphanumeric(
            #[trigger] s.drop_first()[j],
        ) || s.drop_first()[j] == '_') by {
            assert(s.drop_first()[j] == s[j + 1]);
        }
        if k < s.len() {
            assert(s.drop_first()[k - 1] == s[k]);
        }
        lemma_name_prefix_len(s.drop_first(), k - 1);
    }
}

/// What follows the first `struct `, else the first `enum `, else the
/// first `class ` of a line.
pub open spec fn after_keyword(l: Seq<char>) -> Option<Seq<char>> {
    match find_from(l, "struct "@, 0) {
        Some(i) => Some(l.skip(i + 7)),
        None => match find_from(l, "enum "@, 0) {
            Some(i) => Some(l.skip(i + 5)),
            None => match find_from(l, "class "@, 0) {
                Some(i) => Some(l.skip(i + 6)),
                None => None,
            },
        },
    }
}

/// The type a Swift source marks `@main`, reading the lines `ls` with
/// `marked` telling whether an `@main` line is pending: the first type
/// declared on a line after an `@main` line, skipping blank lines,
/// comments and other attributes in between.
pub open spec fn main_scan(ls: Seq<Seq<char>>, marked: bool) -> Option<Seq<char>>
    decreases ls.len(),
{
    if ls.len() == 0 {
        None
    } else {
        let l = trimmed(ls[0]);
        let rest = ls.drop_first();
        if l == "@main"@ {
            main_scan(rest, true)
        } else if !marked || l.len() == 0 || starts_with(l, "//"@) || l[0] == '@' {
            main_scan(rest, marked)
        } else {
            match after_keyword(l) {
                None => main_scan(rest, false),
                Some(r) => {
                    let n = r.take(name_prefix_len(r) as int);
                    if n.len() > 0 {
                        Some(n)
                    } else {
                        main_scan(rest, false)
                    }
                },
            }
        }
    }
}

/// The type the Swift source `source` marks `@main`.
pub open spec fn main_type_of(source: Seq<char>) -> Option<Seq<char>> {
    main_scan(lines_of(source), false)
}

/// What follows the first occurrence of `pat` in `l`.
fn after(l: &Vec<char>, pat: &str) -> (r: Option<String>)
    ensures
        match find_from(l@, pat@, 0) {
            Some(i) => r is Some && r->0@ == l@.skip(i + pat@.len()),
            None => r is None,
        },
{
    let p = chars_of(pat);
    let total = l.len();
    match find_in(l, &p) {
        Some(i) => {
            proof {
                lemma_find_from(l@, p@, 0);
                assert(find_from(l@, p@, 0) == Some(i as int));
                assert(occurs_at(l@, p@, i as int));
            }
            let s = string_of(l, i + p.len(), total);
            proof {
                assert(l@.subrange(i + p@.len(), l@.len() as int) =~= l@.skip(i + p@.len()));
            }
            Some(s)
        },
        None => None,
    }
}

/// The type declared after the keyword on a line, or `None` when the line
/// has no keyword; `Some` of an empty name when the keyword is followed by
/// no name.
fn declared_type(l: &Vec<char>) -> (r: Option<String>)
    ensures
        match after_keyword(l@) {
            Some(rest) => r is Some && r->0@ == rest.take(name_prefix_len(rest) as int),
            None => r is None,
        },
{
    proof {
        reveal_strlit("struct ");
        reveal_strlit("enum ");
        reveal_strlit("class ");
    }
    let rest = match after(l, "struct ") {
        Some(r) => r,
        None => match after(l, "enum ") {
            Some(r) => r,
            None => match after(l, "class ") {
                Some(r) => r,
                None => {
                    return None;
                },
            },
        },
    };
    let v = chars_of(rest.as_str());
    let mut k: usize = 0;
    while k < v.len() && (is_alphanumeric(v[k]) || v[k] == '_')
        invariant
            k <= v@.len(),
            forall|j: int| 0 <= j < k ==> (char_is_alphanumeric(#[trigger] v@[j]) || v@[j] == '_'),
        decreases v@.len() - k,
    {
        k = k + 1;
    }
    proof {
        lemma_name_prefix_len(v@, k as int);
        assert(v@.subrange(0, k as int) =~= v@.take(k as int));
    }
    Some(string_of(&v, 0, k))
}

/// The type the Swift source `source` marks `@main`, if any.
pub fn main_type_in(source: &str) -> (r: Option<String>)
    ensures
        match r {
            Some(n) => main_type_of(source@) == Some(n@),
            None => main_type_of(source@) is None,
        },
{
    let ls = lines(source);
    let ghost lv = lines_of(source@);
    let mut marked = false;
    let mut i: usize = 0;
    proof {
        assert(lv.skip(0) =~= lv);
    }
    while i < ls.len()
        invariant
            string_views(ls@) == lv,
            lv == lines_of(source@),
            i <= ls@.len(),
            main_scan(lv, false) == main_scan(lv.skip(i as int), marked),
        decreases ls@.len() - i,
    {
        proof {
            assert(lv[i as int] == ls@[i as int]@);
            assert(lv.skip(i as int)[0] == lv[i as int]);
            assert(lv.skip(i as int).drop_first() =~= lv.skip(i + 1));
            reveal_strlit("@main");
            reveal_strlit("//");
        }
        let line = trim(ls[i].as_str());
        let l = chars_of(line.as_str());
        if str_eq(line.as_str(), "@main") {
            marked = true;
        } else if !marked || l.len() == 0 || has_prefix(&l, "//") || l[0] == '@' {
        } else {
            match declared_type(&l) {
                None => {
                    marked = false;
                },
                Some(name) => {
                    if !name.as_str().is_empty() {
                        return Some(name);
                    }
                    marked = false;
                },
            }
        }
        i = i + 1;
    }
    proof {
        assert(lv.skip(i as int).len() == 0);
    }
    None
}

/// The first `@main` type among the sources `sources`, in order.
pub open spec fn first_main_type(sources: Seq<Seq<char>>) -> Option<Seq<char>>
    decreases sources.len(),
{
    if sources.len() == 0 {
        None
    } else {
        match main_type_of(sources[0]) {
            Some(n) => Some(n),
            None => first_main_type(sources.drop_first()),
        }
    }
}

/// The type marked `@main` in a package whose Swift sources are
/// `sources`, taken in the order given.
pub fn main_type(sources: &Vec<String>) -> (r: Option<String>)
    ensures
        match r {
            Some(n) => first_main_type(string_views(sources@)) == Some(n@),
            None => first_main_type(string_views(sources@)) is None,
        },
{
    let ghost sv = string_views(sources@);
    let mut i: usize = 0;
    proof {
        assert(sv.skip(0) =~= sv);
    }
    while i < sources.len()
        invariant
            sv == string_views(sources@),
            i <= sources@.len(),
            first_main_type(sv) == first_main_type(sv.skip(i as int)),
        decreases sources@.len() - i,
    {
        proof {
            assert(sv.skip(i as int)[0] == sources@[i as int]@);
            assert(sv.skip(i as int).drop_first() =~= sv.skip(i + 1));
        }
        match main_type_in(sources[i].as_str()) {
            Some(n) => {
                return Some(n);
            },
            None => {},
        }
        i = i + 1;
    }
    proof {
        assert(sv.skip(i as int).len() == 0);
    }
    None
}


// ---------------------------------------------------------------------
// The application id of a Gradle project.

/// `s` without its leading spaces and equals signs.
pub open spec fn drop_space_eq(s: Seq<char>) -> Seq<char>
    decreases s.len(),
{
    if s.len() > 0 && (s[0] == ' ' || s[0] == '=') {
        drop_space_eq(s.drop_first())
    } else {
        s
    }
}

/// `s` without its leading double quotes.
pub open spec fn drop_leading_quotes(s: Seq<char>) -> Seq<char>
    decreases s.len(),
{
    if s.len() > 0 && s[0] == '"' {
        drop_leading_quotes(s.drop_first())
    } else {
        s
    }
}

/// `s` without its trailing double quotes.
pub open spec fn drop_trailing_quotes(s: Seq<char>) -> Seq<char>
    decreases s.len(),
{
    if s.len() > 0 && s.last() == '"' {
        drop_trailing_quotes(s.drop_last())
    } else {
        s
    }
}

/// The value of the first `applicationId` line of a Gradle build script:
/// what follows the key, past spaces and `=`, trimmed and unquoted.
pub open spec fn application_id_scan(ls: Seq<Seq<char>>) -> Option<Seq<char>>
    decreases ls.len(),
{
    if ls.len() == 0 {
        None
    } else {
        let l = trimmed(ls[0]);
        if starts_with(l, "applicationId"@) {
            Some(drop_trailing_quotes(drop_leading_quotes(trimmed(drop_space_eq(l.skip(13))))))
        } else {
            application_id_scan(ls.drop_first())
        }
    }
}

proof fn lemma_drop_front(s: Seq<char>, k: int, which: int)
    requires
        0 <= k <= s.len(),
        which == 0 ==> forall|j: int| 0 <= j < k ==> (#[trigger] s[j] == ' ' || s[j] == '='),
        which == 0 ==> (k == s.len() || !(s[k] == ' ' || s[k] == '=')),
        which != 0 ==> forall|j: int| 0 <= j < k ==> #[trigger] s[j] == '"',
        which != 0 ==> (k == s.len() || s[k] != '"'),
    ensures
        which == 0 ==> drop_space_eq(s) == s.skip(k),
        which != 0 ==> drop_leading_quotes(s) == s.skip(k),
    decreases k,
{
    if k > 0 {
        assert(s.drop_first().skip(k - 1) =~= s.skip(k));
        assert forall|j: int| 0 <= j < k - 1 implies #[trigger] s.drop_first()[j] == s[j + 1] by {}
        if k < s.len() {
            assert(s.drop_first()[k - 1] == s[k]);
        }
        lemma_drop_front(s.drop_first(), k - 1, which);
    } else {
        assert(s.skip(0) =~= s);
    }
}

proof fn lemma_drop_back(s: Seq<char>, e: int)
    requires
        0 <= e <= s.len(),
        forall|j: int| e <= j < s.len() ==> #[trigger] s[j] == '"',
        e == 0 || s[e - 1] != '"',
    ensures
        drop_trailing_quotes(s) == s.take(e),
    decreases s.len() - e,
{
    if e < s.len() {
        assert(s.drop_last().take(e) =~= s.take(e));
        assert forall|j: int| e <= j < s.len() - 1 implies #[trigger] s.drop_last()[j] == '"' by {
            assert(s.drop_last()[j] == s[j]);
        }
        if e > 0 {
            assert(s.drop_last()[e - 1] == s[e - 1]);
        }
        lemma_drop_back(s.drop_last(), e);
    } else {
        assert(s.take(e) =~= s);
    }
}

/// The value after the `applicationId` key of a trimmed line.
fn application_id_value(l: &Vec<char>) -> (r: String)
    requires
        l@.len() >= 13,
    ensures
        r@ == drop_trailing_quotes(drop_leading_quotes(trimmed(drop_space_eq(l@.skip(13))))),
{
    let mut k: usize = 13;
    while k < l.len() && (l[k] == ' ' || l[k] == '=')
        invariant
            13 <= k <= l@.len(),
            forall|j: int| 13 <= j < k ==> (#[trigger] l@[j] == ' ' || l@[j] == '='),
        decreases l@.len() - k,
    {
        k = k + 1;
    }
    proof {
        let s = l@.skip(13);
        assert forall|j: int| 0 <= j < k - 13 implies (#[trigger] s[j] == ' ' || s[j] == '=') by {
            assert(s[j] == l@[j + 13]);
        }
        if k < l@.len() {
            assert(s[k - 13] == l@[k as int]);
        }
        lemma_drop_front(s, k - 13, 0);
        assert(s.skip(k - 13) =~= l@.subrange(k as int, l@.len() as int));
    }
    let rest = string_of(l, k, l.len());
    let t = trim(rest.as_str());
    let v = chars_of(t.as_str());
    let mut a: usize = 0;
    while a < v.len() && v[a] == '"'
        invariant
            a <= v@.len(),
            forall|j: int| 0 <= j < a ==> #[trigger] v@[j] == '"',
        decreases v@.len() - a,
    {
        a = a + 1;
    }
    let mut b: usize = v.len();
    while b > a && v[b - 1] == '"'
        invariant
            a <= b <= v@.len(),
            forall|j: int| b <= j < v@.len() ==> #[trigger] v@[j] == '"',
        decreases b,
    {
        b = b - 1;
    }
    proof {
        lemma_drop_front(v@, a as int, 1);
        let u = v@.skip(a as int);
        assert forall|j: int| b - a <= j < u.len() implies #[trigger] u[j] == '"' by {
            assert(u[j] == v@[j + a]);
        }
        if b > a {
            assert(u[b - a - 1] == v@[b - 1]);
        }
        lemma_drop_back(u, b - a);
        assert(u.take(b - a) =~= v@.subrange(a as int, b as int));
    }
    string_of(&v, a, b)
}

/// The application id a Gradle build script `text` sets, if it sets one.
pub fn application_id_in(text: &str) -> (r: Option<String>)
    ensures
        match r {
            Some(id) => application_id_scan(lines_of(text@)) == Some(id@),
            None => application_id_scan(lines_of(text@)) is None,
        },
{
    let ls = lines(text);
    let ghost lv = lines_of(text@);
    let mut i: usize = 0;
    proof {
        assert(lv.skip(0) =~= lv);
        reveal_strlit("applicationId");
    }
    while i < ls.len()
        invariant
            string_views(ls@) == lv,
            lv == lines_of(text@),
            i <= ls@.len(),
            application_id_scan(lv) == application_id_scan(lv.skip(i as int)),
        decreases ls@.len() - i,
    {
        proof {
            assert(lv[i as int] == ls@[i as int]@);
            assert(lv.skip(i as int)[0] == lv[i as int]);
            assert(lv.skip(i as int).drop_first() =~= lv.skip(i + 1));
            reveal_strlit("applicationId");
        }
        let line = trim(ls[i].as_str());
        let l = chars_of(line.as_str());
        if has_prefix(&l, "applicationId") {
            return Some(application_id_value(&l));
        }
        i = i + 1;
    }
    proof {
        assert(lv.skip(i as int).len() == 0);
    }
    None
}

// ---------------------------------------------------------------------
// The host.

/// The Rust target triple of the host: an explicit, non-empty
/// `SWIFTFLOW_RUST_TRIPLE` wins; else the triple for the host's operating
/// system and architecture; an unrecognised host is an error.
pub open spec fn host_triple_of(explicit: Option<Seq<char>>, os: Seq<char>, arch: Seq<char>) -> Result<Seq<char>, Seq<char>> {
    if explicit is Some && explicit->0.len() > 0 {
        Ok(explicit->0)
    } else if os == "macos"@ {
        Ok(if arch == "aarch64"@ {
            "aarch64-apple-darwin"@
        } else {
            "x86_64-apple-darwin"@
        })
    } else if os == "windows"@ {
        Ok("x86_64-pc-windows-msvc"@)
    } else if os == "linux"@ {
        Ok(if arch == "aarch64"@ {
            "aarch64-unknown-linux-gnu"@
        } else {
            "x86_64-unknown-linux-gnu"@
        })
    } else {
        Err("unrecognised host; set SWIFTFLOW_RUST_TRIPLE"@)
    }
}

/// The Rust target triple of a host running `os` on `arch`, unless
/// `explicit` names one.
pub fn host_triple(explicit: Option<&str>, os: &str, arch: &str) -> (r: Result<String, String>)
    ensures
        match r {
            Ok(t) => host_triple_of(opt_str_view(explicit), os@, arch@) == Ok::<Seq<char>, Seq<char>>(t@),
            Err(e) => host_triple_of(opt_str_view(explicit), os@, arch@) == Err::<Seq<char>, Seq<char>>(e@),
        },
{
    match explicit {
        Some(t) => {
            if !t.is_empty() {
                return Ok(t.to_owned());
            }
        },
        None => {},
    }
    let aarch64 = str_eq(arch, "aarch64");
    if str_eq(os, "macos") {
        Ok(String::from_str(if aarch64 { "aarch64-apple-darwin" } else { "x86_64-apple-darwin" }))
    } else if str_eq(os, "windows") {
        Ok(String::from_str("x86_64-pc-windows-msvc"))
    } else if str_eq(os, "linux") {
        Ok(String::from_str(if aarch64 { "aarch64-unknown-linux-gnu" } else { "x86_64-unknown-linux-gnu" }))
    } else {
        Err(String::from_str("unrecognised host; set SWIFTFLOW_RUST_TRIPLE"))
    }
}

/// The value of a variable when it is set and not empty, else `fallback`.
pub fn env_or(value: Option<String>, fallback: &str) -> (r: String)
    ensures
        r@ == match value {
            Some(v) => if v@.len() > 0 {
                v@
            } else {
                fallback@
            },
            None => fallback@,
        },
{
    match value {
        Some(v) => {
            if !v.as_str().is_empty() {
                return v;
            }
            fallback.to_owned()
        },
        None => fallback.to_owned(),
    }
}


// ---------------------------------------------------------------------
// Android targets.

/// The decimal digits of `n`.
pub open spec fn decimal(n: nat) -> Seq<char>
    decreases n,
{
    if n < 10 {
        seq![(n + 48) as char]
    } else {
        decimal(n / 10).push(((n % 10) + 48) as char)
    }
}

/// The decimal digit for `d`.
fn digit_char(d: u32) -> (c: char)
    requires
        d < 10,
    ensures
        c == (d + 48) as char,
{
    match d {
        0 => '0',
        1 => '1',
        2 => '2',
        3 => '3',
        4 => '4',
        5 => '5',
        6 => '6',
        7 => '7',
        8 => '8',
        _ => '9',
    }
}

/// `n` written in decimal.
pub fn to_decimal(n: u32) -> (s: String)
    ensures
        s@ == decimal(n as nat),
    decreases n,
{
    if n < 10 {
        let mut s = String::new();
        push_char(&mut s, digit_char(n));
        proof {
            assert(s@ =~= seq![(n + 48) as char]);
        }
        s
    } else {
        let mut s = to_decimal(n / 10);
        push_char(&mut s, digit_char(n % 10));
        s
    }
}

/// The Android API level to build for: an explicit, non-empty
/// `SWIFTFLOW_ANDROID_API`, else the configuration's `min_sdk`, else 28.
pub open spec fn android_api_of(explicit: Option<Seq<char>>, min_sdk: Option<u32>) -> Seq<char> {
    if explicit is Some && explicit->0.len() > 0 {
        explicit->0
    } else {
        match min_sdk {
            Some(v) => decimal(v as nat),
            None => "28"@,
        }
    }
}

/// The Android API level to build for.
pub fn android_api(explicit: Option<String>, min_sdk: Option<u32>) -> (api: String)
    ensures
        api@ == android_api_of(crate::project::owned_view(explicit), min_sdk),
{
    match explicit {
        Some(e) => {
            if !e.as_str().is_empty() {
                return e;
            }
        },
        None => {},
    }
    match min_sdk {
        Some(v) => to_decimal(v),
        None => String::from_str("28"),
    }
}

/// The Rust target triple and the Swift SDK for an Android ABI at API
/// level `api`; an ABI other than `arm64-v8a` or `x86_64` is an error.
pub open spec fn android_targets_of(abi: Seq<char>, api: Seq<char>) -> Result<(Seq<char>, Seq<char>), Seq<char>> {
    if abi == "arm64-v8a"@ {
        Ok(("aarch64-linux-android"@, "aarch64-unknown-linux-android"@ + api))
    } else if abi == "x86_64"@ {
        Ok(("x86_64-linux-android"@, "x86_64-unknown-linux-android"@ + api))
    } else {
        Err("unsupported ABI "@ + crate::strs::quoted(abi) + " — expected arm64-v8a or x86_64"@)
    }
}

/// The Rust target triple and the Swift SDK for an Android ABI.
pub fn android_targets(abi: &str, api: &str) -> (r: Result<(String, String), String>)
    ensures
        match r {
            Ok((triple, sdk)) => android_targets_of(abi@, api@) == Ok::<(Seq<char>, Seq<char>), Seq<char>>((triple@, sdk@)),
            Err(e) => android_targets_of(abi@, api@) == Err::<(Seq<char>, Seq<char>), Seq<char>>(e@),
        },
{
    if str_eq(abi, "arm64-v8a") {
        let mut sdk = String::from_str("aarch64-unknown-linux-android");
        sdk.append(api);
        Ok((String::from_str("aarch64-linux-android"), sdk))
    } else if str_eq(abi, "x86_64") {
        let mut sdk = String::from_str("x86_64-unknown-linux-android");
        sdk.append(api);
        Ok((String::from_str("x86_64-linux-android"), sdk))
    } else {
        let mut m = String::from_str("unsupported ABI ");
        let shown = crate::strs::debug_string(abi);
        m.append(shown.as_str());
        m.append(" — expected arm64-v8a or x86_64");
        Err(m)
    }
}

/// The architecture part of a target triple: what comes before its first
/// hyphen.
pub open spec fn triple_arch_of(triple: Seq<char>) -> Seq<char> {
    crate::strs::split_on(triple, '-')[0]
}

/// The architecture part of a target triple.
pub fn triple_arch(triple: &str) -> (arch: String)
    ensures
        arch@ == triple_arch_of(triple@),
{
    let v = chars_of(triple);
    let mut k: usize = 0;
    proof {
        assert(triple@.take(0) =~= Seq::<char>::empty());
    }
    while k < v.len() && v[k] != '-'
        invariant
            v@ == triple@,
            k <= v@.len(),
            forall|j: int| 0 <= j < k ==> v@[j] != '-',
            crate::strs::split_on(triple@.take(k as int), '-') == seq![triple@.take(k as int)],
        decreases v@.len() - k,
    {
        proof {
            crate::strs::lemma_split_on_step(triple@, k as int, '-', seq![], triple@.take(k as int));
            assert(triple@.take(k as int).push(triple@[k as int]) =~= triple@.take(k + 1));
            assert(Seq::<Seq<char>>::empty().push(triple@.take(k + 1)) =~= seq![triple@.take(k + 1)]);
            assert(Seq::<Seq<char>>::empty().push(triple@.take(k as int)) =~= seq![triple@.take(k as int)]);
        }
        k = k + 1;
    }
    proof {
        lemma_split_prefix(triple@, k as int);
        assert(v@.subrange(0, k as int) =~= triple@.take(k as int));
    }
    string_of(&v, 0, k)
}

/// The first piece of `split_on(s, '-')` is what precedes the first
/// hyphen, `s.take(k)`.
proof fn lemma_split_prefix(s: Seq<char>, k: int)
    requires
        0 <= k <= s.len(),
        k == s.len() || s[k] == '-',
        crate::strs::split_on(s.take(k), '-') == seq![s.take(k)],
    ensures
        crate::strs::split_on(s, '-')[0] == s.take(k),
    decreases s.len() - k,
{
    if k < s.len() {
        lemma_split_first_stable(s, k, s.len() as int);
        assert(s.take(s.len() as int) =~= s);
    } else {
        assert(s.take(k) =~= s);
    }
}

proof fn lemma_split_first_stable(s: Seq<char>, k: int, m: int)
    requires
        0 <= k < m <= s.len(),
        s[k] == '-',
        crate::strs::split_on(s.take(k), '-') == seq![s.take(k)],
    ensures
        crate::strs::split_on(s.take(m), '-').len() >= 2,
        crate::strs::split_on(s.take(m), '-')[0] == s.take(k),
    decreases m - k,
{
    if m == k + 1 {
        crate::strs::lemma_split_on_step(s, k, '-', seq![], s.take(k));
        assert(Seq::<Seq<char>>::empty().push(s.take(k)) =~= seq![s.take(k)]);
    } else {
        lemma_split_first_stable(s, k, m - 1);
        assert(s.take(m).drop_last() =~= s.take(m - 1));
    }
    if m == s.len() {
        assert(s.take(m) =~= s);
    }
}

/// The Swift source of the native entry point an Android build adds: a
/// C function `sf_android_main` that starts the app's `@main` type.
pub open spec fn android_entry_source_of(app: Seq<char>) -> Seq<char> {
    "import SwiftFlow\n\n@_cdecl(\"sf_android_main\")\npublic func sf_android_main() {\n    "@ + app
        + ".main()\n}\n"@
}

/// The Swift source of the native entry point for the app type `app`.
pub fn android_entry_source(app: &str) -> (s: String)
    ensures
        s@ == android_entry_source_of(app@),
{
    let mut s = String::from_str(
        "import SwiftFlow\n\n@_cdecl(\"sf_android_main\")\npublic func sf_android_main() {\n    ",
    );
    s.append(app);
    s.append(".main()\n}\n");
    s
}

} // verus!
