//! Text helpers shared by the configuration and project modules: character
//! classes, string building, comparison and ordering, trimming and
//! splitting.

use vstd::prelude::*;
use vstd::string::StringSliceAdditionalSpecFns;
use vstd::utf8::*;
use vstd::std_specs::iter::IteratorSpec;
use vstd::seq_lib::lemma_seq_contains_after_push;

verus! {

broadcast use {encode_utf8_valid_utf8, encode_utf8_decode_utf8, vstd::string::group_string_axioms};

/// An ASCII decimal digit.
pub open spec fn is_digit(c: char) -> bool {
    '0' <= c && c <= '9'
}

/// An ASCII letter.
pub open spec fn is_ascii_letter(c: char) -> bool {
    ('a' <= c && c <= 'z') || ('A' <= c && c <= 'Z')
}

/// An ASCII letter or digit.
pub open spec fn is_ascii_alnum(c: char) -> bool {
    is_ascii_letter(c) || is_digit(c)
}

/// `c` with an ASCII capital letter made small.
pub open spec fn ascii_lower(c: char) -> char {
    if 'A' <= c && c <= 'Z' {
        ((c as u32) + 32) as char
    } else {
        c
    }
}

/// `c` with an ASCII small letter made capital.
pub open spec fn ascii_upper(c: char) -> char {
    if 'a' <= c && c <= 'z' {
        ((c as u32) - 32) as char
    } else {
        c
    }
}

/// Unicode's "Cc" category: the C0 and C1 control characters and DEL.
pub open spec fn is_control(c: char) -> bool {
    (c as u32) <= 0x1f || (0x7f <= (c as u32) && (c as u32) <= 0x9f)
}

/// Whether `c` is alphabetic or numeric in Unicode (`char::is_alphanumeric`).
pub uninterp spec fn char_is_alphanumeric(c: char) -> bool;

/// Whether `c` has Unicode's White_Space property: the ASCII tab, line
/// feed, vertical tab, form feed, carriage return and space, NEL, the
/// no-break space, the Ogham space mark, the spaces U+2000 to U+200A, the
/// line and paragraph separators, the narrow no-break space, the medium
/// mathematical space and the ideographic space.
pub open spec fn char_is_whitespace(c: char) -> bool {
    let u = c as u32;
    (0x09 <= u && u <= 0x0d) || u == 0x20 || u == 0x85 || u == 0xa0 || u == 0x1680 || (0x2000 <= u
        && u <= 0x200a) || u == 0x2028 || u == 0x2029 || u == 0x202f || u == 0x205f || u == 0x3000
}

/// The characters of `c` in upper case (`char::to_uppercase`).
pub uninterp spec fn char_uppercase(c: char) -> Seq<char>;

/// `{:?}` formatting of a string: quoted, with escapes.
pub uninterp spec fn debug_quoted(s: Seq<char>) -> Seq<char>;

/// Calls `char::is_alphanumeric`. Its documentation defines it as the
/// Alphabetic or Numeric Unicode property, which within ASCII holds
/// exactly for letters and digits; that is all this claims beyond the
/// name of the result.
#[verifier::external_body]
pub(crate) fn is_alphanumeric(c: char) -> (b: bool)
    ensures
        b == char_is_alphanumeric(c),
        (c as u32) < 128 ==> (b <==> is_ascii_alnum(c)),
{
    c.is_alphanumeric()
}

/// Whether `c` has Unicode's White_Space property, the same test
/// `char::is_whitespace` makes.
pub(crate) fn is_whitespace(c: char) -> (b: bool)
    ensures
        b == char_is_whitespace(c),
{
    let u = c as u32;
    (0x09 <= u && u <= 0x0d) || u == 0x20 || u == 0x85 || u == 0xa0 || u == 0x1680 || (0x2000 <= u
        && u <= 0x200a) || u == 0x2028 || u == 0x2029 || u == 0x202f || u == 0x205f || u == 0x3000
}

/// Calls `char::to_uppercase` and collects it. Within ASCII it is
/// documented to agree with `to_ascii_uppercase`: one character.
#[verifier::external_body]
pub(crate) fn to_uppercase(c: char) -> (s: String)
    ensures
        s@ == char_uppercase(c),
        (c as u32) < 128 ==> s@ == seq![ascii_upper(c)],
{
    c.to_uppercase().collect()
}

/// A character that `{:?}` writes as itself inside a string: printable
/// ASCII other than the quotes and the backslash.
pub open spec fn debug_plain(c: char) -> bool {
    0x20 <= (c as u32) && (c as u32) <= 0x7e && c != '"' && c != '\'' && c != '\\'
}

/// `s` as `{:?}` writes it: a text of plain characters between double
/// quotes, any other text as the named result.
pub open spec fn quoted(s: Seq<char>) -> Seq<char> {
    if forall|i: int| 0 <= i < s.len() ==> debug_plain(#[trigger] s[i]) {
        seq!['"'] + s + seq!['"']
    } else {
        debug_quoted(s)
    }
}

/// Calls `format!("{:?}", s)`: the text between double quotes, with each
/// character written as `char::escape_debug` writes it, which leaves
/// printable ASCII other than quotes and the backslash as it is. What the
/// escapes of other characters are is left to the name.
#[verifier::external_body]
pub(crate) fn debug_string(s: &str) -> (r: String)
    ensures
        r@ == debug_quoted(s@),
        (forall|i: int| 0 <= i < s@.len() ==> debug_plain(#[trigger] s@[i])) ==> r@ == seq!['"']
            + s@ + seq!['"'],
{
    format!("{:?}", s)
}

/// Calls `String::push`, which appends one character.
#[verifier::external_body]
pub(crate) fn push_char(s: &mut String, c: char)
    ensures
        final(s)@ == old(s)@.push(c),
{
    s.push(c)
}

/// The characters of `s`, one by one.
pub fn chars_of(s: &str) -> (v: Vec<char>)
    ensures
        v@ == s@,
{
    let mut v: Vec<char> = Vec::new();
    let mut chars = s.chars();
    loop
        invariant_except_break
            v@ + chars.remaining() == s@,
        ensures
            v@ == s@,
        decreases s@.len() - v@.len(),
    {
        match chars.next() {
            Some(c) => {
                v.push(c);
            },
            None => {
                break;
            },
        }
    }
    v
}

/// A string made of the characters `v[from..to]`.
pub fn string_of(v: &Vec<char>, from: usize, to: usize) -> (s: String)
    requires
        from <= to <= v.len(),
    ensures
        s@ == v@.subrange(from as int, to as int),
{
    let mut s = String::new();
    let mut i = from;
    while i < to
        invariant
            from <= i <= to <= v.len(),
            s@ == v@.subrange(from as int, i as int),
        decreases to - i,
    {
        push_char(&mut s, v[i]);
        proof {
            assert(v@.subrange(from as int, i + 1) =~= v@.subrange(from as int, i as int).push(
                v@[i as int],
            ));
        }
        i = i + 1;
    }
    s
}

/// Equality of two string slices, character for character.
pub fn str_eq(a: &str, b: &str) -> (r: bool)
    ensures
        r == (a@ == b@),
{
    let x = a.as_bytes();
    let y = b.as_bytes();
    if x.len() != y.len() {
        proof {
            if a@ == b@ {
                assert(a.spec_bytes() == b.spec_bytes());
            }
        }
        return false;
    }
    let mut i: usize = 0;
    while i < x.len()
        invariant
            x@ == a.spec_bytes(),
            y@ == b.spec_bytes(),
            x@.len() == y@.len(),
            i <= x@.len(),
            forall|j: int| 0 <= j < i ==> x@[j] == y@[j],
        decreases x@.len() - i,
    {
        if x[i] != y[i] {
            proof {
                if a@ == b@ {
                    assert(a.spec_bytes() == b.spec_bytes());
                }
            }
            return false;
        }
        i = i + 1;
    }
    proof {
        assert(x@ =~= y@);
        assert(decode_utf8(a.spec_bytes()) == a@);
        assert(decode_utf8(b.spec_bytes()) == b@);
    }
    true
}

/// A new string holding `a` followed by `b`.
pub fn concat2(a: &str, b: &str) -> (s: String)
    ensures
        s@ == a@ + b@,
{
    let mut s = a.to_owned();
    s.append(b);
    s
}

/// Whether `c` occurs in `s`.
pub fn contains_char(s: &str, c: char) -> (r: bool)
    ensures
        r == s@.contains(c),
{
    let v = chars_of(s);
    let mut i: usize = 0;
    while i < v.len()
        invariant
            v@ == s@,
            i <= v@.len(),
            forall|j: int| 0 <= j < i ==> v@[j] != c,
        decreases v@.len() - i,
    {
        if v[i] == c {
            proof {
                assert(s@[i as int] == c);
            }
            return true;
        }
        i = i + 1;
    }
    false
}

/// The index of the first character of `s` that is not white space, or
/// `s.len()` if there is none.
pub open spec fn first_non_white(s: Seq<char>) -> int
    decreases s.len(),
{
    if s.len() == 0 || !char_is_whitespace(s[0]) {
        0
    } else {
        1 + first_non_white(s.drop_first())
    }
}

/// One past the last character of `s` that is not white space, or `0`.
pub open spec fn last_non_white_end(s: Seq<char>) -> int
    decreases s.len(),
{
    if s.len() == 0 || !char_is_whitespace(s.last()) {
        s.len() as int
    } else {
        last_non_white_end(s.drop_last())
    }
}

/// `s` without leading and trailing white space (`str::trim`).
pub open spec fn trimmed(s: Seq<char>) -> Seq<char> {
    let start = first_non_white(s);
    let end = last_non_white_end(s);
    if start >= end {
        Seq::empty()
    } else {
        s.subrange(start, end)
    }
}

proof fn lemma_first_non_white(s: Seq<char>, i: int)
    requires
        0 <= i <= s.len(),
        forall|j: int| 0 <= j < i ==> char_is_whitespace(#[trigger] s[j]),
    ensures
        first_non_white(s) == i + first_non_white(s.subrange(i, s.len() as int)),
    decreases i,
{
    if i > 0 {
        assert(s.drop_first().subrange(i - 1, s.len() - 1) =~= s.subrange(i, s.len() as int));
        assert forall|j: int| 0 <= j < i - 1 implies char_is_whitespace(
            #[trigger] s.drop_first()[j],
        ) by {
            assert(s.drop_first()[j] == s[j + 1]);
        }
        lemma_first_non_white(s.drop_first(), i - 1);
    } else {
        assert(s.subrange(0, s.len() as int) =~= s);
    }
}

proof fn lemma_last_non_white(s: Seq<char>, e: int)
    requires
        0 <= e <= s.len(),
        forall|j: int| e <= j < s.len() ==> char_is_whitespace(#[trigger] s[j]),
    ensures
        last_non_white_end(s) == last_non_white_end(s.subrange(0, e)),
    decreases s.len() - e,
{
    if e < s.len() {
        assert(s.drop_last().subrange(0, e) =~= s.subrange(0, e));
        assert forall|j: int| e <= j < s.len() - 1 implies char_is_whitespace(
            #[trigger] s.drop_last()[j],
        ) by {
            assert(s.drop_last()[j] == s[j]);
        }
        lemma_last_non_white(s.drop_last(), e);
    } else {
        assert(s.subrange(0, e) =~= s);
    }
}

proof fn lemma_last_non_white_bound(s: Seq<char>)
    ensures
        0 <= last_non_white_end(s) <= s.len(),
        last_non_white_end(s) > 0 ==> !char_is_whitespace(s[last_non_white_end(s) - 1]),
    decreases s.len(),
{
    if s.len() > 0 && char_is_whitespace(s.last()) {
        lemma_last_non_white_bound(s.drop_last());
    }
}

/// `s` without leading and trailing white space.
pub fn trim(s: &str) -> (r: String)
    ensures
        r@ == trimmed(s@),
{
    let v = chars_of(s);
    let n = v.len();
    let mut start: usize = 0;
    while start < n && is_whitespace(v[start])
        invariant
            v@ == s@,
            n == v@.len(),
            start <= n,
            forall|j: int| 0 <= j < start ==> char_is_whitespace(#[trigger] v@[j]),
        decreases n - start,
    {
        start = start + 1;
    }
    proof {
        lemma_first_non_white(v@, start as int);
        if start < n {
            assert(first_non_white(v@.subrange(start as int, n as int)) == 0);
        } else {
            assert(v@.subrange(start as int, n as int).len() == 0);
        }
    }
    let mut end: usize = n;
    while end > start && is_whitespace(v[end - 1])
        invariant
            v@ == s@,
            n == v@.len(),
            start <= end <= n,
            forall|j: int| end <= j < n ==> char_is_whitespace(#[trigger] v@[j]),
        decreases end,
    {
        end = end - 1;
    }
    proof {
        lemma_last_non_white(v@, end as int);
        lemma_last_non_white_bound(v@.subrange(0, end as int));
        if end > start {
            assert(v@.subrange(0, end as int).last() == v@[end - 1]);
            assert(last_non_white_end(v@.subrange(0, end as int)) == end);
        } else {
            // Everything from `start` on is white space; the trimmed text is empty.
            assert(first_non_white(v@) == start);
            if last_non_white_end(v@) > start {
                let k = last_non_white_end(v@);
                lemma_last_non_white_bound(v@);
                assert(k <= end);
                assert(false);
            }
        }
    }
    string_of(&v, start, if end > start { end } else { start })
}

/// Lexicographic order on byte strings, as `str` and `String` compare.
pub open spec fn bytes_lt(a: Seq<u8>, b: Seq<u8>) -> bool
    decreases a.len(),
{
    if a.len() == 0 {
        b.len() > 0
    } else if b.len() == 0 {
        false
    } else if a[0] != b[0] {
        a[0] < b[0]
    } else {
        bytes_lt(a.drop_first(), b.drop_first())
    }
}

/// The order of strings: by their UTF-8 bytes.
pub open spec fn str_lt(a: Seq<char>, b: Seq<char>) -> bool {
    bytes_lt(encode_utf8(a), encode_utf8(b))
}

pub proof fn lemma_bytes_lt_total(a: Seq<u8>, b: Seq<u8>)
    ensures
        a != b ==> (bytes_lt(a, b) || bytes_lt(b, a)),
        !(bytes_lt(a, b) && bytes_lt(b, a)),
        !bytes_lt(a, a),
    decreases a.len(),
{
    if a.len() > 0 && b.len() > 0 && a[0] == b[0] {
        lemma_bytes_lt_total(a.drop_first(), b.drop_first());
        if a.drop_first() == b.drop_first() {
            assert forall|i: int| 0 <= i < a.len() implies a[i] == b[i] by {
                if i > 0 {
                    assert(a[i] == a.drop_first()[i - 1]);
                    assert(b[i] == b.drop_first()[i - 1]);
                }
            }
            assert(a =~= b);
        }
    } else if a.len() > 0 {
        lemma_bytes_lt_total(a.drop_first(), a.drop_first());
    } else if b.len() == 0 {
        assert(a =~= b);
    }
}

pub proof fn lemma_bytes_lt_trans(a: Seq<u8>, b: Seq<u8>, c: Seq<u8>)
    requires
        bytes_lt(a, b),
        bytes_lt(b, c),
    ensures
        bytes_lt(a, c),
    decreases a.len(),
{
    if a.len() > 0 && b.len() > 0 && c.len() > 0 && a[0] == b[0] && b[0] == c[0] {
        lemma_bytes_lt_trans(a.drop_first(), b.drop_first(), c.drop_first());
    }
}

/// The strict order on strings is a strict total order.
pub proof fn lemma_str_lt_order(a: Seq<char>, b: Seq<char>, c: Seq<char>)
    ensures
        a != b ==> (str_lt(a, b) || str_lt(b, a)),
        !(str_lt(a, b) && str_lt(b, a)),
        !str_lt(a, a),
        str_lt(a, b) && str_lt(b, c) ==> str_lt(a, c),
{
    lemma_bytes_lt_total(encode_utf8(a), encode_utf8(b));
    lemma_bytes_lt_total(encode_utf8(a), encode_utf8(a));
    if a != b {
        assert(encode_utf8(a) != encode_utf8(b)) by {
            if encode_utf8(a) == encode_utf8(b) {
                assert(decode_utf8(encode_utf8(a)) == decode_utf8(encode_utf8(b)));
            }
        }
    }
    if str_lt(a, b) && str_lt(b, c) {
        lemma_bytes_lt_trans(encode_utf8(a), encode_utf8(b), encode_utf8(c));
    }
}

proof fn lemma_bytes_lt_skip(a: Seq<u8>, b: Seq<u8>, i: int)
    requires
        0 <= i <= a.len(),
        i <= b.len(),
        forall|j: int| 0 <= j < i ==> a[j] == b[j],
    ensures
        bytes_lt(a, b) == bytes_lt(a.skip(i), b.skip(i)),
    decreases i,
{
    if i > 0 {
        assert(a.drop_first().skip(i - 1) =~= a.skip(i));
        assert(b.drop_first().skip(i - 1) =~= b.skip(i));
        lemma_bytes_lt_skip(a.drop_first(), b.drop_first(), i - 1);
    } else {
        assert(a.skip(0) =~= a);
        assert(b.skip(0) =~= b);
    }
}

/// Whether `a` sorts strictly before `b`.
pub fn str_less(a: &str, b: &str) -> (r: bool)
    ensures
        r == str_lt(a@, b@),
{
    let x = a.as_bytes();
    let y = b.as_bytes();
    let mut i: usize = 0;
    while i < x.len() && i < y.len() && x[i] == y[i]
        invariant
            x@ == a.spec_bytes(),
            y@ == b.spec_bytes(),
            i <= x@.len(),
            i <= y@.len(),
            forall|j: int| 0 <= j < i ==> x@[j] == y@[j],
        decreases x@.len() - i,
    {
        i = i + 1;
    }
    proof {
        lemma_bytes_lt_skip(x@, y@, i as int);
    }
    if i == x.len() {
        i < y.len()
    } else if i == y.len() {
        false
    } else {
        x[i] < y[i]
    }
}

/// `items` strictly ascending in string order (so free of repeats).
pub open spec fn strictly_sorted(items: Seq<Seq<char>>) -> bool {
    forall|i: int, j: int| 0 <= i < j < items.len() ==> str_lt(#[trigger] items[i], #[trigger] items[j])
}

/// The contents of a vector of strings.
pub open spec fn string_views(v: Seq<String>) -> Seq<Seq<char>> {
    v.map_values(|s: String| s@)
}

pub proof fn lemma_insert_contains<A>(b: Seq<A>, p: int, x: A, s: A)
    requires
        0 <= p <= b.len(),
    ensures
        b.insert(p, x).contains(s) <==> (b.contains(s) || s == x),
{
    b.insert_ensures(p, x);
    let o = b.insert(p, x);
    if o.contains(s) {
        let w = choose|w: int| 0 <= w < o.len() && o[w] == s;
        if w < p {
            assert(b[w] == s);
        } else if w > p {
            assert(o[(w - 1) + 1] == b[w - 1]);
            assert(b[w - 1] == s);
        }
    }
    if b.contains(s) {
        let v = choose|v: int| 0 <= v < b.len() && b[v] == s;
        if v < p {
            assert(o[v] == s);
        } else {
            assert(o[v + 1] == s);
        }
    }
    if s == x {
        assert(o[p] == s);
    }
}

/// `items` sorted and with repeats removed, as `sort` then `dedup` leave
/// it: the result is strictly ascending and holds exactly the strings
/// that `items` holds.
pub fn sort_dedup(items: Vec<String>) -> (out: Vec<String>)
    ensures
        strictly_sorted(string_views(out@)),
        forall|s: Seq<char>| string_views(out@).contains(s) <==> string_views(items@).contains(s),
{
    let mut out: Vec<String> = Vec::new();
    let mut k: usize = 0;
    while k < items.len()
        invariant
            k <= items.len(),
            strictly_sorted(string_views(out@)),
            forall|s: Seq<char>|
                string_views(out@).contains(s) <==> string_views(items@.take(k as int)).contains(s),
        decreases items.len() - k,
    {
        let x = &items[k];
        let mut p: usize = 0;
        while p < out.len() && str_less(out[p].as_str(), x.as_str())
            invariant
                p <= out.len(),
                forall|q: int| 0 <= q < p ==> str_lt(#[trigger] out@[q]@, x@),
            decreases out.len() - p,
        {
            p = p + 1;
        }
        let ghost before = out@;
        proof {
            assert(items@.take(k + 1) =~= items@.take(k as int).push(items@[k as int]));
            assert(string_views(items@.take(k + 1)) =~= string_views(items@.take(k as int)).push(
                x@,
            ));
        }
        if p < out.len() && str_eq(out[p].as_str(), x.as_str()) {
            proof {
                let tv0 = string_views(items@.take(k as int));
                assert forall|s: Seq<char>| string_views(out@).contains(s) <==> string_views(
                    items@.take(k + 1),
                ).contains(s) by {
                    lemma_seq_contains_after_push(tv0, x@, s);
                    if s == x@ {
                        assert(string_views(out@)[p as int] == s);
                    }
                }
            }
        } else {
            out.insert(p, x.clone());
            proof {
                let o = string_views(out@);
                let b = string_views(before);
                assert(o =~= b.insert(p as int, x@));
                if p < before.len() {
                    lemma_str_lt_order(x@, before[p as int]@, x@);
                    assert(str_lt(x@, before[p as int]@));
                }
                assert forall|i: int, j: int| 0 <= i < j < o.len() implies str_lt(
                    #[trigger] o[i],
                    #[trigger] o[j],
                ) by {
                    if i < p && j == p {
                        assert(o[i] == b[i]);
                    } else if i < p && j > p {
                        assert(o[i] == b[i]);
                        assert(o[j] == b[j - 1]);
                        if j - 1 == p {
                        } else {
                            assert(str_lt(b[p as int], b[j - 1]));
                            lemma_str_lt_order(x@, b[p as int], b[j - 1]);
                        }
                        lemma_str_lt_order(o[i], x@, o[j]);
                    } else if i == p {
                        assert(o[j] == b[j - 1]);
                        if j - 1 > p {
                            assert(str_lt(b[p as int], b[j - 1]));
                            lemma_str_lt_order(x@, b[p as int], b[j - 1]);
                        }
                    } else if i > p {
                        assert(o[i] == b[i - 1]);
                        assert(o[j] == b[j - 1]);
                    } else {
                        assert(o[i] == b[i]);
                        assert(o[j] == b[j]);
                    }
                }
                let tv0 = string_views(items@.take(k as int));
                assert forall|s: Seq<char>| o.contains(s) <==> string_views(
                    items@.take(k + 1),
                ).contains(s) by {
                    lemma_seq_contains_after_push(tv0, x@, s);
                    lemma_insert_contains(b, p as int, x@, s);
                }
            }
        }
        k = k + 1;
    }
    proof {
        assert(items@.take(items.len() as int) =~= items@);
    }
    out
}

/// The strings of `parts` joined with `sep` between neighbours.
pub open spec fn joined(parts: Seq<Seq<char>>, sep: Seq<char>) -> Seq<char>
    decreases parts.len(),
{
    if parts.len() == 0 {
        Seq::empty()
    } else if parts.len() == 1 {
        parts[0]
    } else {
        joined(parts.drop_last(), sep) + sep + parts.last()
    }
}

/// The views of a list of string slices.
pub open spec fn str_views(v: Seq<&str>) -> Seq<Seq<char>> {
    v.map_values(|s: &str| s@)
}

/// `parts` joined with `sep` between neighbours (`slice::join`).
pub fn join(parts: &Vec<&str>, sep: &str) -> (s: String)
    ensures
        s@ == joined(str_views(parts@), sep@),
{
    let mut s = String::new();
    let mut i: usize = 0;
    while i < parts.len()
        invariant
            i <= parts.len(),
            s@ == joined(str_views(parts@.take(i as int)), sep@),
        decreases parts.len() - i,
    {
        proof {
            assert(str_views(parts@.take(i + 1)).drop_last() =~= str_views(parts@.take(i as int)));
        }
        if i > 0 {
            s.append(sep);
        }
        s.append(parts[i]);
        i = i + 1;
    }
    proof {
        assert(parts@.take(parts.len() as int) =~= parts@);
    }
    s
}


/// `s` cut at every `sep` (`str::split` with a character): always at
/// least one piece, and `sep` itself in none of them.
pub open spec fn split_on(s: Seq<char>, sep: char) -> Seq<Seq<char>>
    decreases s.len(),
{
    if s.len() == 0 {
        seq![Seq::empty()]
    } else {
        let p = split_on(s.drop_last(), sep);
        if s.last() == sep {
            p.push(Seq::empty())
        } else {
            p.update(p.len() - 1, p.last().push(s.last()))
        }
    }
}

pub proof fn lemma_split_on_len(s: Seq<char>, sep: char)
    ensures
        split_on(s, sep).len() >= 1,
    decreases s.len(),
{
    if s.len() > 0 {
        lemma_split_on_len(s.drop_last(), sep);
    }
}

/// One step of `split_on`, read from the front: adding a character to a
/// text whose pieces are `done` and then `cur`.
pub proof fn lemma_split_on_step(s: Seq<char>, i: int, sep: char, done: Seq<Seq<char>>, cur: Seq<char>)
    requires
        0 <= i < s.len(),
        split_on(s.take(i), sep) == done.push(cur),
    ensures
        s[i] == sep ==> split_on(s.take(i + 1), sep) == done.push(cur).push(Seq::<char>::empty()),
        s[i] != sep ==> split_on(s.take(i + 1), sep) == done.push(cur.push(s[i])),
{
    assert(s.take(i + 1).drop_last() =~= s.take(i));
    assert(s.take(i + 1).last() == s[i]);
    if s[i] != sep {
        assert(done.push(cur).update(done.len() as int, cur.push(s[i])) =~= done.push(cur.push(s[i])));
    }
}


/// `c` with an ASCII capital letter made small (`char::to_ascii_lowercase`).
pub fn to_ascii_lowercase(c: char) -> (r: char)
    ensures
        r == ascii_lower(c),
{
    if 'A' <= c && c <= 'Z' {
        ((c as u8) + 32) as char
    } else {
        c
    }
}


/// A line without the `\r` of a `\r\n` ending.
pub open spec fn strip_cr(l: Seq<char>) -> Seq<char> {
    if l.len() > 0 && l.last() == '\r' {
        l.drop_last()
    } else {
        l
    }
}

/// The lines of `s` as `str::lines` gives them: cut at each `\n`, a `\r`
/// just before a `\n` dropped, and no empty line after a final `\n`.
pub open spec fn lines_of(s: Seq<char>) -> Seq<Seq<char>> {
    let parts = split_on(s, '\n');
    let n = if parts.last().len() == 0 {
        parts.len() - 1
    } else {
        parts.len() as int
    };
    Seq::new(n as nat, |i: int| if i < parts.len() - 1 { strip_cr(parts[i]) } else { parts[i] })
}

/// The lines of `s`.
pub fn lines(s: &str) -> (v: Vec<String>)
    ensures
        string_views(v@) == lines_of(s@),
{
    let chars = chars_of(s);
    let mut out: Vec<String> = Vec::new();
    let ghost mut done: Seq<Seq<char>> = seq![];
    let mut cur = String::new();
    let mut i: usize = 0;
    proof {
        assert(s@.take(0) =~= Seq::<char>::empty());
        assert(done.push(cur@) =~= seq![Seq::<char>::empty()]);
    }
    while i < chars.len()
        invariant
            chars@ == s@,
            i <= chars@.len(),
            split_on(s@.take(i as int), '\n') == done.push(cur@),
            string_views(out@) == done.map_values(|l: Seq<char>| strip_cr(l)),
        decreases chars@.len() - i,
    {
        let c = chars[i];
        proof {
            lemma_split_on_step(s@, i as int, '\n', done, cur@);
        }
        if c == '\n' {
            let line = strip_cr_string(cur);
            let ghost prev = out@;
            out.push(line);
            proof {
                assert(string_views(out@) =~= string_views(prev).push(strip_cr(done.push(cur@).last())));
                done = done.push(cur@);
                assert(string_views(out@) =~= done.map_values(|l: Seq<char>| strip_cr(l)));
            }
            cur = String::new();
        } else {
            push_char(&mut cur, c);
        }
        i = i + 1;
    }
    proof {
        assert(s@.take(i as int) =~= s@);
    }
    let ghost parts = done.push(cur@);
    proof {
        assert(split_on(s@, '\n') == parts);
        assert(parts.last() == cur@);
    }
    if !cur.as_str().is_empty() {
        let ghost prev = out@;
        out.push(cur);
        proof {
            let l = lines_of(s@);
            assert(l.len() == parts.len());
            assert forall|k: int| 0 <= k < l.len() implies #[trigger] string_views(out@)[k] == l[k] by {
                if k < done.len() {
                    assert(parts[k] == done[k]);
                    assert(string_views(out@)[k] == string_views(prev)[k]);
                }
            }
            assert(string_views(out@) =~= l);
        }
    } else {
        proof {
            let l = lines_of(s@);
            assert(l.len() == done.len());
            assert forall|k: int| 0 <= k < l.len() implies #[trigger] string_views(out@)[k] == l[k] by {
                assert(parts[k] == done[k]);
            }
            assert(string_views(out@) =~= l);
        }
    }
    out
}

/// `l` without the `\r` of a `\r\n` ending.
fn strip_cr_string(l: String) -> (r: String)
    ensures
        r@ == strip_cr(l@),
{
    let v = chars_of(l.as_str());
    if v.len() > 0 && v[v.len() - 1] == '\r' {
        string_of(&v, 0, v.len() - 1)
    } else {
        proof {
            assert(v@.subrange(0, v@.len() as int) =~= v@);
        }
        l
    }
}

/// `pat` occurs in `s` at `i`.
pub open spec fn occurs_at(s: Seq<char>, pat: Seq<char>, i: int) -> bool {
    0 <= i && i + pat.len() <= s.len() && s.subrange(i, i + pat.len()) == pat
}

/// The first place at or after `k` where `pat` occurs in `s`.
pub open spec fn find_from(s: Seq<char>, pat: Seq<char>, k: int) -> Option<int>
    decreases s.len() + 1 - k,
{
    if k < 0 || k + pat.len() > s.len() {
        None
    } else if occurs_at(s, pat, k) {
        Some(k)
    } else {
        find_from(s, pat, k + 1)
    }
}

/// `find_from` gives the first occurrence at or after `k`.
pub proof fn lemma_find_from(s: Seq<char>, pat: Seq<char>, k: int)
    requires
        0 <= k,
    ensures
        match find_from(s, pat, k) {
            Some(i) => k <= i && occurs_at(s, pat, i) && forall|j: int|
                k <= j < i ==> !occurs_at(s, pat, j),
            None => forall|j: int| k <= j ==> !occurs_at(s, pat, j),
        },
    decreases s.len() + 1 - k,
{
    if k + pat.len() <= s.len() && !occurs_at(s, pat, k) {
        lemma_find_from(s, pat, k + 1);
    }
}

/// Whether `pat` occurs in `v` at `i`.
pub fn occurs_here(v: &Vec<char>, pat: &Vec<char>, i: usize) -> (b: bool)
    requires
        i <= v@.len(),
    ensures
        b == occurs_at(v@, pat@, i as int),
{
    if pat.len() > v.len() - i {
        return false;
    }
    let mut j: usize = 0;
    while j < pat.len()
        invariant
            i + pat@.len() <= v@.len(),
            i + pat.len() <= v.len(),
            j <= pat@.len(),
            forall|k: int| 0 <= k < j ==> v@[i + k] == pat@[k],
        decreases pat@.len() - j,
    {
        if v[i + j] != pat[j] {
            proof {
                assert(v@.subrange(i as int, i + pat@.len())[j as int] != pat@[j as int]);
            }
            return false;
        }
        j = j + 1;
    }
    proof {
        assert(v@.subrange(i as int, i + pat@.len()) =~= pat@);
    }
    true
}

/// The first index at which `pat` occurs in `v`.
pub fn find_in(v: &Vec<char>, pat: &Vec<char>) -> (r: Option<usize>)
    ensures
        match r {
            Some(i) => find_from(v@, pat@, 0) == Some(i as int),
            None => find_from(v@, pat@, 0) is None,
        },
{
    if pat.len() == 0 {
        proof {
            assert(v@.subrange(0, 0) =~= pat@);
        }
        return Some(0);
    }
    let mut i: usize = 0;
    while pat.len() <= v.len() - i
        invariant
            pat@.len() > 0,
            i <= v@.len(),
            find_from(v@, pat@, 0) == find_from(v@, pat@, i as int),
        decreases v@.len() - i,
    {
        if occurs_here(v, pat, i) {
            return Some(i);
        }
        i = i + 1;
    }
    None
}


/// The trimmed text, when it is not blank.
pub open spec fn nonblank_trimmed(text: Seq<char>) -> Option<Seq<char>> {
    if trimmed(text).len() > 0 {
        Some(trimmed(text))
    } else {
        None
    }
}

/// `text` trimmed, or `None` when nothing is left: how one-line files
/// such as a version file are read.
pub fn trimmed_nonblank(text: &str) -> (r: Option<String>)
    ensures
        match r {
            Some(t) => nonblank_trimmed(text@) == Some(t@),
            None => nonblank_trimmed(text@) is None,
        },
{
    let t = trim(text);
    if t.as_str().is_empty() {
        None
    } else {
        Some(t)
    }
}


/// The first character of `s` that is not white space is at `k`.
pub proof fn lemma_first_non_white_at(s: Seq<char>, k: int)
    requires
        0 <= k <= s.len(),
        forall|j: int| 0 <= j < k ==> char_is_whitespace(#[trigger] s[j]),
        k == s.len() || !char_is_whitespace(s[k]),
    ensures
        first_non_white(s) == k,
{
    lemma_first_non_white(s, k);
    if k < s.len() {
        assert(s.subrange(k, s.len() as int)[0] == s[k]);
    } else {
        assert(s.subrange(k, s.len() as int).len() == 0);
    }
}

} // verus!
