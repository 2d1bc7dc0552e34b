//! `SwiftFlow.toml`: one file describing an app on every platform, and the
//! rules that lower it into each platform's own manifest.
//!
//! Reading the file and turning TOML into these types happens at the edge;
//! everything that decides what a configuration means is here.

use vstd::prelude::*;
use crate::strs::{
    quoted, debug_string, is_digit, is_ascii_alnum, str_eq, str_lt, strictly_sorted,
    str_less, trim, trimmed, lemma_str_lt_order, str_views, join, joined, string_views,
    sort_dedup, split_on, lemma_split_on_step, contains_char, chars_of, string_of,
};

verus! {

/// The name of the configuration file in a project's root.
pub const FILE_NAME: &'static str = "SwiftFlow.toml";

/// `[swiftflow]`: which framework version the project builds against.
#[derive(Debug, Default)]
pub struct SwiftFlowSection {
    pub version: Option<String>,
}

/// `[app]`: the canonical values every platform is lowered from.
#[derive(Debug, Default)]
pub struct AppSection {
    pub id: Option<String>,
    pub name: Option<String>,
    pub version: Option<String>,
    pub build: Option<u32>,
    pub icon: Option<String>,
    pub orientation: Option<Orientation>,
}

/// The orientations an app supports.
#[derive(Debug, Clone, Copy, PartialEq, Eq)]
pub enum Orientation {
    Portrait,
    Landscape,
    Any,
}

impl Orientation {
    /// The `android:screenOrientation` value for this orientation.
    pub fn android(self) -> (s: &'static str)
        ensures
            s@ == match self {
                Orientation::Portrait => "portrait"@,
                Orientation::Landscape => "landscape"@,
                Orientation::Any => "fullSensor"@,
            },
    {
        match self {
            Orientation::Portrait => "portrait",
            Orientation::Landscape => "landscape",
            Orientation::Any => "fullSensor",
        }
    }
}

/// `[capabilities.<name>]`: a capability the app asks for, with the reason
/// iOS shows the user.
#[derive(Debug, Default)]
pub struct Capability {
    pub reason: Option<String>,
}

/// `[ios]`. The raw `[ios.plist]` passthrough is kept as its keys, in
/// order: what is decided here only depends on which keys are present.
#[derive(Debug, Default)]
pub struct IosSection {
    pub deployment_target: Option<String>,
    pub category: Option<String>,
    pub scheme: Option<String>,
    pub project: Option<String>,
    pub plist: Vec<String>,
}

/// `[android]`. The raw `[android.manifest]` passthrough is kept as its
/// keys, in order.
#[derive(Debug, Default)]
pub struct AndroidSection {
    pub min_sdk: Option<u32>,
    pub target_sdk: Option<u32>,
    pub namespace: Option<String>,
    pub application_id: Option<String>,
    pub gradle_module: Option<String>,
    pub icon: AndroidIcon,
    pub manifest: Vec<String>,
}

/// `[android.icon]`: the layers of an adaptive icon.
#[derive(Debug, Default)]
pub struct AndroidIcon {
    pub foreground: Option<String>,
    pub background: Option<String>,
}

/// `[desktop]`.
#[derive(Debug, Default)]
pub struct DesktopSection {
    pub bin: Option<String>,
    pub window_icon: Option<String>,
}

/// The view of an optional string.
pub open spec fn opt_view(o: Option<String>) -> Option<Seq<char>> {
    match o {
        Some(s) => Some(s@),
        None => None,
    }
}

/// The `[capabilities]` table: capability names with their settings, kept
/// in ascending name order with no name twice, as a sorted map keeps them.
#[derive(Debug)]
pub struct CapabilityTable {
    entries: Vec<(String, Capability)>,
}

impl CapabilityTable {
    /// The entries, in order: each name with its reason.
    pub closed spec fn view(&self) -> Seq<(Seq<char>, Option<Seq<char>>)> {
        self.entries@.map_values(|e: (String, Capability)| (e.0@, opt_view(e.1.reason)))
    }

    /// The names, in order.
    pub open spec fn keys(&self) -> Seq<Seq<char>> {
        self.view().map_values(|e: (Seq<char>, Option<Seq<char>>)| e.0)
    }

    /// Names strictly ascending, hence none twice.
    pub open spec fn wf(&self) -> bool {
        strictly_sorted(self.keys())
    }

    /// An empty table.
    pub fn new() -> (t: CapabilityTable)
        ensures
            t.wf(),
            t.view() == Seq::<(Seq<char>, Option<Seq<char>>)>::empty(),
    {
        let t = CapabilityTable { entries: Vec::new() };
        proof {
            assert(t.view() =~= Seq::<(Seq<char>, Option<Seq<char>>)>::empty());
            assert(t.keys() =~= Seq::<Seq<char>>::empty());
        }
        t
    }

    /// The names, in order.
    pub fn names(&self) -> (v: Vec<&str>)
        ensures
            str_views(v@) == self.keys(),
    {
        let mut v: Vec<&str> = Vec::new();
        let mut i: usize = 0;
        while i < self.entries.len()
            invariant
                i <= self.entries@.len(),
                v@.len() == i,
                forall|j: int| 0 <= j < i ==> #[trigger] v@[j]@ == self.entries@[j].0@,
            decreases self.entries@.len() - i,
        {
            v.push(self.entries[i].0.as_str());
            i = i + 1;
        }
        proof {
            assert(str_views(v@) =~= self.keys());
        }
        v
    }

    /// The number of capabilities.
    pub fn len(&self) -> (n: usize)
        ensures
            n == self.view().len(),
    {
        self.entries.len()
    }

    /// Sets the entry for `name`: a name already present keeps its place
    /// and takes the new settings; a new name goes where the order puts it.
    pub fn insert(&mut self, name: String, capability: Capability)
        requires
            old(self).wf(),
        ensures
            final(self).wf(),
            forall|k: Seq<char>|
                final(self).keys().contains(k) <==> (old(self).keys().contains(k) || k == name@),
            forall|i: int|
                0 <= i < final(self).view().len() ==> (#[trigger] final(self).view()[i]).0
                    == name@ ==> final(self).view()[i].1 == opt_view(capability.reason),
            forall|i: int|
                0 <= i < final(self).view().len() && (#[trigger] final(self).view()[i]).0
                    != name@ ==> old(self).view().contains(final(self).view()[i]),
            old(self).keys().contains(name@) ==> final(self).view().len() == old(self).view().len(),
            !old(self).keys().contains(name@) ==> final(self).view().len() == old(self).view().len() + 1,
    {
        let ghost before = self.view();
        let mut p: usize = 0;
        while p < self.entries.len() && str_less(self.entries[p].0.as_str(), name.as_str())
            invariant
                p <= self.entries@.len(),
                self.view() == before,
                forall|q: int| 0 <= q < p ==> str_lt(#[trigger] self.keys()[q], name@),
            decreases self.entries@.len() - p,
        {
            proof {
                assert(self.keys()[p as int] == self.entries@[p as int].0@);
            }
            p = p + 1;
        }
        let ghost keys0 = self.keys();
        proof {
            assert(keys0.len() == before.len());
            if p < keys0.len() {
                assert(keys0[p as int] == self.entries@[p as int].0@);
            }
        }
        if p < self.entries.len() && str_eq(self.entries[p].0.as_str(), name.as_str()) {
            let ghost rv = opt_view(capability.reason);
            self.entries.set(p, (name, capability));
            proof {
                let v1 = self.view();
                assert(v1 =~= before.update(p as int, (keys0[p as int], rv)));
                assert(self.keys() =~= keys0);
                assert forall|k: Seq<char>|
                    self.keys().contains(k) <==> (keys0.contains(k) || k == name@) by {
                    if k == name@ {
                        assert(self.keys()[p as int] == k);
                    }
                }
                assert forall|i: int| 0 <= i < v1.len() && (#[trigger] v1[i]).0 != name@ implies before.contains(v1[i]) by {
                    assert(i != p);
                    assert(v1[i] == before[i]);
                }
                assert forall|i: int| 0 <= i < v1.len() && (#[trigger] v1[i]).0 == name@ implies v1[i].1 == rv by {
                    if i != p {
                        assert(keys0[i] == name@);
                        lemma_str_lt_order(keys0[i], keys0[p as int], keys0[i]);
                        if i < p {
                            assert(str_lt(keys0[i], keys0[p as int]));
                        } else {
                            assert(str_lt(keys0[p as int], keys0[i]));
                        }
                    }
                }
            }
        } else {
            let ghost nv = (name@, opt_view(capability.reason));
            self.entries.insert(p, (name, capability));
            proof {
                let v1 = self.view();
                assert(v1 =~= before.insert(p as int, nv));
                let k1 = self.keys();
                assert(k1 =~= keys0.insert(p as int, nv.0));
                keys0.insert_ensures(p as int, nv.0);
                if p < keys0.len() {
                    lemma_str_lt_order(nv.0, keys0[p as int], nv.0);
                    assert(str_lt(nv.0, keys0[p as int]));
                }
                assert forall|i: int, j: int| 0 <= i < j < k1.len() implies str_lt(
                    #[trigger] k1[i],
                    #[trigger] k1[j],
                ) by {
                    if i < p && j == p {
                    } else if i < p && j > p {
                        assert(k1[j] == keys0[j - 1]);
                        if j - 1 > p {
                            assert(str_lt(keys0[p as int], keys0[j - 1]));
                            lemma_str_lt_order(nv.0, keys0[p as int], keys0[j - 1]);
                        }
                        lemma_str_lt_order(k1[i], nv.0, k1[j]);
                    } else if i == p {
                        assert(k1[j] == keys0[j - 1]);
                        if j - 1 > p {
                            assert(str_lt(keys0[p as int], keys0[j - 1]));
                            lemma_str_lt_order(nv.0, keys0[p as int], keys0[j - 1]);
                        }
                    } else if i > p {
                        assert(k1[i] == keys0[i - 1]);
                        assert(k1[j] == keys0[j - 1]);
                    }
                }
                assert(!keys0.contains(name@)) by {
                    if keys0.contains(name@) {
                        let w = choose|w: int| 0 <= w < keys0.len() && keys0[w] == name@;
                        lemma_str_lt_order(name@, name@, name@);
                        if w >= p {
                            if w > p {
                                assert(str_lt(keys0[p as int], keys0[w]));
                            }
                            lemma_str_lt_order(name@, keys0[p as int], name@);
                        }
                    }
                }
                assert forall|k: Seq<char>|
                    k1.contains(k) <==> (keys0.contains(k) || k == name@) by {
                    crate::strs::lemma_insert_contains(keys0, p as int, nv.0, k);
                }
                before.insert_ensures(p as int, nv);
                assert forall|i: int| 0 <= i < v1.len() && (#[trigger] v1[i]).0 != name@ implies before.contains(v1[i]) by {
                    if i < p {
                        assert(v1[i] == before[i]);
                    } else if i > p {
                        assert(v1[i] == before[i - 1]);
                    }
                }
                assert forall|i: int| 0 <= i < v1.len() && (#[trigger] v1[i]).0 == name@ implies v1[i].1 == nv.1 by {
                    if i < p {
                        assert(keys0[i] == name@);
                    } else if i > p {
                        assert(keys0[i - 1] == name@);
                    }
                }
            }
        }
    }
}


/// How one capability is lowered onto each platform.
pub struct Lowering {
    /// The canonical name used under `[capabilities]`.
    pub name: &'static str,
    /// The Android permissions it needs.
    pub android: Vec<&'static str>,
    /// The Info.plist key holding the reason iOS shows, if iOS asks.
    pub ios_usage_key: Option<&'static str>,
}

/// The view of an optional string slice.
pub open spec fn opt_str_view(o: Option<&str>) -> Option<Seq<char>> {
    match o {
        Some(s) => Some(s@),
        None => None,
    }
}

/// A lowering as plain values: name, Android permissions, iOS usage key.
pub open spec fn lowering_view(l: Lowering) -> (Seq<char>, Seq<Seq<char>>, Option<Seq<char>>) {
    (l.name@, str_views(l.android@), opt_str_view(l.ios_usage_key))
}

/// The capability vocabulary the CLI knows how to lower, in order.
pub open spec fn capability_table() -> Seq<(Seq<char>, Seq<Seq<char>>, Option<Seq<char>>)> {
    seq![
        ("camera"@, seq!["android.permission.CAMERA"@], Some("NSCameraUsageDescription"@)),
        ("microphone"@, seq!["android.permission.RECORD_AUDIO"@], Some("NSMicrophoneUsageDescription"@)),
        (
            "location-when-in-use"@,
            seq!["android.permission.ACCESS_FINE_LOCATION"@, "android.permission.ACCESS_COARSE_LOCATION"@],
            Some("NSLocationWhenInUseUsageDescription"@),
        ),
        (
            "location-always"@,
            seq![
                "android.permission.ACCESS_FINE_LOCATION"@,
                "android.permission.ACCESS_COARSE_LOCATION"@,
                "android.permission.ACCESS_BACKGROUND_LOCATION"@,
            ],
            Some("NSLocationAlwaysAndWhenInUseUsageDescription"@),
        ),
        ("photos"@, seq!["android.permission.READ_MEDIA_IMAGES"@], Some("NSPhotoLibraryUsageDescription"@)),
        ("contacts"@, seq!["android.permission.READ_CONTACTS"@], Some("NSContactsUsageDescription"@)),
        ("calendar"@, seq!["android.permission.READ_CALENDAR"@], Some("NSCalendarsUsageDescription"@)),
        (
            "bluetooth"@,
            seq!["android.permission.BLUETOOTH_CONNECT"@, "android.permission.BLUETOOTH_SCAN"@],
            Some("NSBluetoothAlwaysUsageDescription"@),
        ),
        ("notifications"@, seq!["android.permission.POST_NOTIFICATIONS"@], None),
        ("network"@, seq!["android.permission.INTERNET"@], None),
    ]
}

/// The first entry of `t` named `name`.
pub open spec fn find_lowering(
    t: Seq<(Seq<char>, Seq<Seq<char>>, Option<Seq<char>>)>,
    name: Seq<char>,
) -> Option<(Seq<char>, Seq<Seq<char>>, Option<Seq<char>>)>
    decreases t.len(),
{
    if t.len() == 0 {
        None
    } else if t[0].0 == name {
        Some(t[0])
    } else {
        find_lowering(t.drop_first(), name)
    }
}

/// How the capability called `name` is lowered, if it is in the vocabulary.
pub open spec fn lowering_of(name: Seq<char>) -> Option<(Seq<char>, Seq<Seq<char>>, Option<Seq<char>>)> {
    find_lowering(capability_table(), name)
}

/// The names of the vocabulary, in order.
pub open spec fn capability_names() -> Seq<Seq<char>> {
    capability_table().map_values(|e: (Seq<char>, Seq<Seq<char>>, Option<Seq<char>>)| e.0)
}

proof fn lemma_find_lowering_skip(
    t: Seq<(Seq<char>, Seq<Seq<char>>, Option<Seq<char>>)>,
    name: Seq<char>,
    i: int,
)
    requires
        0 <= i < t.len(),
        t[i].0 != name,
    ensures
        find_lowering(t.skip(i), name) == find_lowering(t.skip(i + 1), name),
{
    assert(t.skip(i).drop_first() =~= t.skip(i + 1));
}

/// The vocabulary of capabilities.
pub struct Capabilities;

impl Capabilities {
    /// Every capability the CLI can lower, in order.
    pub fn all() -> (v: Vec<Lowering>)
        ensures
            v@.map_values(|l: Lowering| lowering_view(l)) == capability_table(),
    {
        let v = vec![
            Lowering {
                name: "camera",
                android: vec!["android.permission.CAMERA"],
                ios_usage_key: Some("NSCameraUsageDescription"),
            },
            Lowering {
                name: "microphone",
                android: vec!["android.permission.RECORD_AUDIO"],
                ios_usage_key: Some("NSMicrophoneUsageDescription"),
            },
            Lowering {
                name: "location-when-in-use",
                android: vec![
                    "android.permission.ACCESS_FINE_LOCATION",
                    "android.permission.ACCESS_COARSE_LOCATION",
                ],
                ios_usage_key: Some("NSLocationWhenInUseUsageDescription"),
            },
            Lowering {
                name: "location-always",
                android: vec![
                    "android.permission.ACCESS_FINE_LOCATION",
                    "android.permission.ACCESS_COARSE_LOCATION",
                    "android.permission.ACCESS_BACKGROUND_LOCATION",
                ],
                ios_usage_key: Some("NSLocationAlwaysAndWhenInUseUsageDescription"),
            },
            Lowering {
                name: "photos",
                android: vec!["android.permission.READ_MEDIA_IMAGES"],
                ios_usage_key: Some("NSPhotoLibraryUsageDescription"),
            },
            Lowering {
                name: "contacts",
                android: vec!["android.permission.READ_CONTACTS"],
                ios_usage_key: Some("NSContactsUsageDescription"),
            },
            Lowering {
                name: "calendar",
                android: vec!["android.permission.READ_CALENDAR"],
                ios_usage_key: Some("NSCalendarsUsageDescription"),
            },
            Lowering {
                name: "bluetooth",
                android: vec![
                    "android.permission.BLUETOOTH_CONNECT",
                    "android.permission.BLUETOOTH_SCAN",
                ],
                ios_usage_key: Some("NSBluetoothAlwaysUsageDescription"),
            },
            Lowering {
                name: "notifications",
                android: vec!["android.permission.POST_NOTIFICATIONS"],
                ios_usage_key: None,
            },
            Lowering {
                name: "network",
                android: vec!["android.permission.INTERNET"],
                ios_usage_key: None,
            },
        ];
        proof {
            let w = v@.map_values(|l: Lowering| lowering_view(l));
            assert forall|i: int| 0 <= i < w.len() implies w[i] == capability_table()[i] by {
                assert(str_views(v@[i].android@) =~= capability_table()[i].1);
            }
            assert(w =~= capability_table());
        }
        v
    }

    /// How the capability called `name` is lowered, or `None` for a name
    /// outside the vocabulary.
    pub fn lookup(name: &str) -> (r: Option<Lowering>)
        ensures
            match r {
                Some(l) => lowering_of(name@) == Some(lowering_view(l)),
                None => lowering_of(name@) is None,
            },
    {
        let mut table = Self::all();
        let ghost t = capability_table();
        let mut i: usize = 0;
        proof {
            assert(t.skip(0) =~= t);
        }
        while i < table.len()
            invariant
                table@.map_values(|l: Lowering| lowering_view(l)) == t,
                t == capability_table(),
                i <= table@.len(),
                find_lowering(t, name@) == find_lowering(t.skip(i as int), name@),
            decreases table@.len() - i,
        {
            proof {
                assert(t[i as int] == lowering_view(table@[i as int]));
            }
            if str_eq(table[i].name, name) {
                proof {
                    assert(t.skip(i as int)[0] == t[i as int]);
                }
                let l = table.remove(i);
                return Some(l);
            }
            proof {
                lemma_find_lowering_skip(t, name@, i as int);
            }
            i = i + 1;
        }
        proof {
            assert(t.skip(i as int).len() == 0);
        }
        None
    }

    /// The names of the vocabulary, in order.
    pub fn names() -> (v: Vec<&'static str>)
        ensures
            str_views(v@) == capability_names(),
    {
        let table = Self::all();
        let mut v: Vec<&'static str> = Vec::new();
        let mut i: usize = 0;
        while i < table.len()
            invariant
                table@.map_values(|l: Lowering| lowering_view(l)) == capability_table(),
                i <= table@.len(),
                v@.len() == i,
                capability_names().len() == table@.len(),
                str_views(v@) == capability_names().take(i as int),
            decreases table@.len() - i,
        {
            proof {
                assert(capability_table()[i as int] == lowering_view(table@[i as int]));
                assert(capability_names()[i as int] == table@[i as int].name@);
            }
            let ghost before = v@;
            v.push(table[i].name);
            proof {
                assert forall|j: int| 0 <= j <= i implies #[trigger] str_views(v@)[j]
                    == capability_names()[j] by {
                    if j < i {
                        assert(v@[j] == before[j]);
                        assert(str_views(before)[j] == capability_names().take(i as int)[j]);
                    }
                }
                assert(str_views(v@) =~= capability_names().take(i + 1));
            }
            i = i + 1;
        }
        proof {
            assert(capability_names().take(i as int) =~= capability_names());
        }
        v
    }
}


/// A character Android accepts in a package-name segment.
pub open spec fn is_segment_char(c: char) -> bool {
    is_ascii_alnum(c) || c == '_'
}

/// What is wrong with one dot-separated segment of an identifier.
pub open spec fn segment_error(seg: Seq<char>) -> Option<Seq<char>> {
    if seg.len() == 0 {
        Some("has an empty segment"@)
    } else if is_digit(seg[0]) {
        Some("segment "@ + quoted(seg) + " starts with a digit"@)
    } else if exists|i: int| 0 <= i < seg.len() && !is_segment_char(#[trigger] seg[i]) {
        Some("segment "@ + quoted(seg) + " has characters Android rejects"@)
    } else {
        None
    }
}

/// What is wrong with the first faulty segment, if any is.
pub open spec fn first_segment_error(segs: Seq<Seq<char>>) -> Option<Seq<char>>
    decreases segs.len(),
{
    if segs.len() == 0 {
        None
    } else {
        match segment_error(segs[0]) {
            Some(e) => Some(e),
            None => first_segment_error(segs.drop_first()),
        }
    }
}

/// Why `id` is not a reverse-DNS identifier Android accepts, or `None`
/// when it is one.
pub open spec fn reverse_dns_error(id: Seq<char>) -> Option<Seq<char>> {
    if !id.contains('.') {
        Some("expected reverse-DNS, like com.example.app"@)
    } else {
        first_segment_error(split_on(id, '.'))
    }
}

proof fn lemma_first_segment_error_push(segs: Seq<Seq<char>>, x: Seq<char>)
    ensures
        first_segment_error(segs.push(x)) == match first_segment_error(segs) {
            Some(e) => Some(e),
            None => segment_error(x),
        },
    decreases segs.len(),
{
    if segs.len() > 0 {
        assert(segs.push(x)[0] == segs[0]);
        assert(segs.push(x).drop_first() =~= segs.drop_first().push(x));
        lemma_first_segment_error_push(segs.drop_first(), x);
    } else {
        assert(segs.push(x)[0] == x);
        assert(segs.push(x).drop_first() =~= Seq::<Seq<char>>::empty());
        assert(first_segment_error(Seq::<Seq<char>>::empty()) is None);
    }
}

/// Whether `c` is an ASCII letter, digit or underscore.
pub fn is_segment_char_exec(c: char) -> (b: bool)
    ensures
        b == is_segment_char(c),
{
    ('a' <= c && c <= 'z') || ('A' <= c && c <= 'Z') || ('0' <= c && c <= '9') || c == '_'
}

/// The verdict on the segment `chars[start..end]`, given whether all its
/// characters are ones Android accepts.
fn check_segment(chars: &Vec<char>, start: usize, end: usize, all_ok: bool) -> (r: Option<String>)
    requires
        start <= end <= chars@.len(),
        all_ok == forall|j: int| start <= j < end ==> is_segment_char(#[trigger] chars@[j]),
    ensures
        opt_view(r) == segment_error(chars@.subrange(start as int, end as int)),
{
    let ghost seg = chars@.subrange(start as int, end as int);
    if start == end {
        return Some(String::from_str("has an empty segment"));
    }
    let segment = string_of(chars, start, end);
    if '0' <= chars[start] && chars[start] <= '9' {
        let mut msg = String::from_str("segment ");
        let shown = debug_string(segment.as_str());
        msg.append(shown.as_str());
        msg.append(" starts with a digit");
        return Some(msg);
    }
    if !all_ok {
        proof {
            let j = choose|j: int| start <= j < end && !is_segment_char(#[trigger] chars@[j]);
            assert(!is_segment_char(seg[j - start]));
        }
        let mut msg = String::from_str("segment ");
        let shown = debug_string(segment.as_str());
        msg.append(shown.as_str());
        msg.append(" has characters Android rejects");
        return Some(msg);
    }
    proof {
        assert forall|i: int| 0 <= i < seg.len() implies is_segment_char(#[trigger] seg[i]) by {
            assert(seg[i] == chars@[start + i]);
        }
    }
    None
}

proof fn lemma_split_prefix_stable(s: Seq<char>, i: int, k: int, p: Seq<Seq<char>>)
    requires
        0 <= i < k <= s.len(),
        split_on(s.take(i + 1), '.') == p.push(Seq::<char>::empty()),
    ensures
        split_on(s.take(k), '.').len() > p.len(),
        split_on(s.take(k), '.').take(p.len() as int) == p,
    decreases k,
{
    if k == i + 1 {
        assert(p.push(Seq::<char>::empty()).take(p.len() as int) =~= p);
    } else {
        lemma_split_prefix_stable(s, i, k - 1, p);
        assert(s.take(k).drop_last() =~= s.take(k - 1));
        let q = split_on(s.take(k - 1), '.');
        let r = split_on(s.take(k), '.');
        if s.take(k).last() == '.' {
            assert(r.take(p.len() as int) =~= q.take(p.len() as int));
        } else {
            assert(r.take(p.len() as int) =~= q.take(p.len() as int));
        }
    }
}

proof fn lemma_first_error_take(q: Seq<Seq<char>>, m: int)
    requires
        0 <= m <= q.len(),
        first_segment_error(q.take(m)) is Some,
    ensures
        first_segment_error(q) == first_segment_error(q.take(m)),
    decreases m,
{
    if m > 0 {
        assert(q.take(m)[0] == q[0]);
        if segment_error(q[0]) is None {
            assert(q.take(m).drop_first() =~= q.drop_first().take(m - 1));
            lemma_first_error_take(q.drop_first(), m - 1);
        }
    }
}

/// Once a faulty segment has been closed by a dot, what follows cannot
/// change the verdict.
proof fn lemma_first_error_prefix(s: Seq<char>, i: int, p: Seq<Seq<char>>)
    requires
        0 <= i < s.len(),
        split_on(s.take(i + 1), '.') == p.push(Seq::<char>::empty()),
        first_segment_error(p) is Some,
    ensures
        first_segment_error(split_on(s, '.')) == first_segment_error(p),
{
    lemma_split_prefix_stable(s, i, s.len() as int, p);
    assert(s.take(s.len() as int) =~= s);
    lemma_first_error_take(split_on(s, '.'), p.len() as int);
}

proof fn lemma_first_segment_error_none(segs: Seq<Seq<char>>)
    ensures
        first_segment_error(segs) is None <==> forall|k: int|
            0 <= k < segs.len() ==> segment_error(#[trigger] segs[k]) is None,
    decreases segs.len(),
{
    if segs.len() > 0 {
        lemma_first_segment_error_none(segs.drop_first());
        if first_segment_error(segs) is None {
            assert forall|k: int| 0 <= k < segs.len() implies segment_error(
                #[trigger] segs[k],
            ) is None by {
                if k > 0 {
                    assert(segs[k] == segs.drop_first()[k - 1]);
                }
            }
        }
        if forall|k: int| 0 <= k < segs.len() ==> segment_error(#[trigger] segs[k]) is None {
            assert(segment_error(segs[0]) is None);
            assert forall|k: int| 0 <= k < segs.drop_first().len() implies segment_error(
                #[trigger] segs.drop_first()[k],
            ) is None by {
                assert(segs.drop_first()[k] == segs[k + 1]);
            }
        }
    }
}

/// The identifiers the reverse-DNS check accepts are exactly those that
/// hold a dot and whose dot-separated segments are all non-empty, do not
/// start with a digit and hold only ASCII letters, digits and underscores.
pub proof fn law_accepted_ids_are_reverse_dns(id: Seq<char>)
    ensures
        reverse_dns_error(id) is None <==> {
            &&& id.contains('.')
            &&& forall|k: int|
                #![trigger split_on(id, '.')[k]]
                0 <= k < split_on(id, '.').len() ==> {
                    let seg = split_on(id, '.')[k];
                    &&& seg.len() > 0
                    &&& !is_digit(seg[0])
                    &&& forall|i: int| 0 <= i < seg.len() ==> is_segment_char(#[trigger] seg[i])
                }
        },
{
    lemma_first_segment_error_none(split_on(id, '.'));
}

/// Checks that `id` is a reverse-DNS identifier whose segments Android
/// accepts as a package name.
pub fn validate_reverse_dns(id: &str) -> (r: Result<(), String>)
    ensures
        match r {
            Ok(()) => reverse_dns_error(id@) is None,
            Err(e) => reverse_dns_error(id@) == Some(e@),
        },
{
    if !contains_char(id, '.') {
        return Err(String::from_str("expected reverse-DNS, like com.example.app"));
    }
    let chars = chars_of(id);
    let ghost mut done: Seq<Seq<char>> = seq![];
    let mut start: usize = 0;
    let mut all_ok = true;
    let mut i: usize = 0;
    proof {
        assert(chars@.take(0) =~= Seq::<char>::empty());
        assert(chars@.subrange(0, 0) =~= Seq::<char>::empty());
        assert(done.push(Seq::<char>::empty()) =~= seq![Seq::<char>::empty()]);
    }
    while i < chars.len()
        invariant
            chars@ == id@,
            start <= i <= chars@.len(),
            split_on(chars@.take(i as int), '.') == done.push(chars@.subrange(start as int, i as int)),
            first_segment_error(done) is None,
            all_ok == forall|j: int| start <= j < i ==> is_segment_char(#[trigger] chars@[j]),
        decreases chars@.len() - i,
    {
        let c = chars[i];
        proof {
            lemma_split_on_step(chars@, i as int, '.', done, chars@.subrange(start as int, i as int));
        }
        if c == '.' {
            let verdict = check_segment(&chars, start, i, all_ok);
            proof {
                lemma_first_segment_error_push(done, chars@.subrange(start as int, i as int));
            }
            match verdict {
                Some(e) => {
                    proof {
                        lemma_first_error_prefix(
                            chars@,
                            i as int,
                            done.push(chars@.subrange(start as int, i as int)),
                        );
                    }
                    return Err(e);
                },
                None => {},
            }
            proof {
                done = done.push(chars@.subrange(start as int, i as int));
                assert(chars@.subrange(i + 1, i + 1) =~= Seq::<char>::empty());
            }
            start = i + 1;
            all_ok = true;
        } else {
            proof {
                assert(chars@.subrange(start as int, i as int).push(c) =~= chars@.subrange(
                    start as int,
                    i + 1,
                ));
            }
            all_ok = all_ok && is_segment_char_exec(c);
        }
        i = i + 1;
    }
    proof {
        assert(chars@.take(i as int) =~= id@);
        lemma_first_segment_error_push(done, chars@.subrange(start as int, i as int));
    }
    match check_segment(&chars, start, i, all_ok) {
        Some(e) => Err(e),
        None => Ok(()),
    }
}


impl Default for CapabilityTable {
    /// An empty table.
    fn default() -> (t: CapabilityTable)
        ensures
            t.wf(),
            t.view() == Seq::<(Seq<char>, Option<Seq<char>>)>::empty(),
    {
        CapabilityTable::new()
    }
}

/// A whole `SwiftFlow.toml`.
#[derive(Debug, Default)]
pub struct Config {
    pub swiftflow: SwiftFlowSection,
    pub app: AppSection,
    pub capabilities: CapabilityTable,
    pub ios: IosSection,
    pub android: AndroidSection,
    pub desktop: DesktopSection,
}

/// The message for an identifier that fails the reverse-DNS check.
pub open spec fn id_message(section: Seq<char>, id: Seq<char>, why: Seq<char>) -> Seq<char> {
    section + quoted(id) + ": "@ + why
}

/// The message for a capability outside the vocabulary: it names the
/// capability, lists the vocabulary and points at the raw sections.
pub open spec fn unknown_capability_message(name: Seq<char>) -> Seq<char> {
    "unknown capability "@ + quoted(name) + "\n  known: "@ + joined(capability_names(), ", "@)
        + "\n  Anything outside this vocabulary goes in [ios.plist] or [android.manifest] instead."@
}

/// The message for the first name of `keys` outside the vocabulary.
pub open spec fn unknown_capability_error(keys: Seq<Seq<char>>) -> Option<Seq<char>>
    decreases keys.len(),
{
    if keys.len() == 0 {
        None
    } else if lowering_of(keys[0]) is None {
        Some(unknown_capability_message(keys[0]))
    } else {
        unknown_capability_error(keys.drop_first())
    }
}

/// What is wrong with a configuration, checked in this order: the app's
/// identifier, the Android application id, then each capability name in
/// table order. `None` when nothing is.
pub open spec fn config_error(c: Config) -> Option<Seq<char>> {
    let app_id = opt_view(c.app.id);
    let android_id = opt_view(c.android.application_id);
    if app_id is Some && reverse_dns_error(app_id->0) is Some {
        Some(id_message("[app] id "@, app_id->0, reverse_dns_error(app_id->0)->0))
    } else if android_id is Some && reverse_dns_error(android_id->0) is Some {
        Some(
            id_message(
                "[android] application_id "@,
                android_id->0,
                reverse_dns_error(android_id->0)->0,
            ),
        )
    } else {
        unknown_capability_error(c.capabilities.keys())
    }
}

/// The version a project is pinned to: the trimmed `[swiftflow] version`
/// when it is not blank, else the trimmed contents of the old pin file
/// when that is not blank.
pub open spec fn pin_of(version: Option<Seq<char>>, pin_file: Option<Seq<char>>) -> Option<Seq<char>> {
    if version is Some && trimmed(version->0).len() > 0 {
        Some(trimmed(version->0))
    } else if pin_file is Some && trimmed(pin_file->0).len() > 0 {
        Some(trimmed(pin_file->0))
    } else {
        None
    }
}

/// One item when `b` holds, none otherwise.
pub open spec fn listed_if(b: bool, item: Seq<char>) -> Seq<Seq<char>> {
    if b {
        seq![item]
    } else {
        seq![]
    }
}

/// The settings that are declared but not yet lowered anywhere, each
/// described by one line.
pub open spec fn unlowered_of(c: Config) -> Seq<Seq<char>> {
    listed_if(c.app.icon is Some, "[app] icon — per-platform icon generation"@)
        + listed_if(
        c.android.icon.foreground is Some || c.android.icon.background is Some,
        "[android.icon] — adaptive icon layers"@,
    ) + listed_if(c.desktop.window_icon is Some, "[desktop] window_icon — .desktop generation"@)
        + listed_if(
        c.ios.plist@.len() > 0 || c.ios.category is Some,
        "[ios.plist] / [ios] category — Info.plist merging"@,
    )
}

/// The Android permissions asked for by the capabilities `keys`, in
/// order, after the Internet permission every app gets.
pub open spec fn requested_permissions(keys: Seq<Seq<char>>) -> Seq<Seq<char>>
    decreases keys.len(),
{
    if keys.len() == 0 {
        seq!["android.permission.INTERNET"@]
    } else {
        requested_permissions(keys.drop_last()) + match lowering_of(keys.last()) {
            Some(l) => l.1,
            None => seq![],
        }
    }
}

/// The iOS usage descriptions of the capabilities `entries`, in order:
/// one (key, reason) pair for each known capability that iOS asks a
/// reason for and that gives one.
pub open spec fn usage_descriptions_of(entries: Seq<(Seq<char>, Option<Seq<char>>)>) -> Seq<(Seq<char>, Seq<char>)>
    decreases entries.len(),
{
    if entries.len() == 0 {
        seq![]
    } else {
        let e = entries.last();
        usage_descriptions_of(entries.drop_last()) + match lowering_of(e.0) {
            Some(l) => if l.2 is Some && e.1 is Some {
                seq![(l.2->0, e.1->0)]
            } else {
                seq![]
            },
            None => seq![],
        }
    }
}

/// Whether `name` is a known capability for which iOS asks a reason.
pub open spec fn asks_reason(name: Seq<char>) -> bool {
    match lowering_of(name) {
        Some(l) => l.2 is Some,
        None => false,
    }
}

/// The capabilities of `entries`, in order, that iOS needs a reason for
/// and that give none.
pub open spec fn missing_reasons_of(entries: Seq<(Seq<char>, Option<Seq<char>>)>) -> Seq<Seq<char>>
    decreases entries.len(),
{
    if entries.len() == 0 {
        seq![]
    } else {
        let e = entries.last();
        missing_reasons_of(entries.drop_last()) + if e.1 is None && asks_reason(e.0) {
            seq![e.0]
        } else {
            seq![]
        }
    }
}

/// Pairs of an Info.plist key and a reason, as plain values.
pub open spec fn usage_views(v: Seq<(&'static str, String)>) -> Seq<(Seq<char>, Seq<char>)> {
    v.map_values(|p: (&'static str, String)| (p.0@, p.1@))
}


proof fn lemma_unknown_skip(keys: Seq<Seq<char>>, i: int)
    requires
        0 <= i < keys.len(),
        lowering_of(keys[i]) is Some,
    ensures
        unknown_capability_error(keys.skip(i)) == unknown_capability_error(keys.skip(i + 1)),
{
    assert(keys.skip(i).drop_first() =~= keys.skip(i + 1));
}

/// The message for an identifier in `section` that is not one Android accepts.
fn id_error(section: &str, id: &str, why: String) -> (m: String)
    ensures
        m@ == id_message(section@, id@, why@),
{
    let mut m = section.to_owned();
    let shown = debug_string(id);
    m.append(shown.as_str());
    m.append(": ");
    m.append(why.as_str());
    m
}

impl Config {
    /// The entries of the `[capabilities]` table, as plain values.
    pub open spec fn capability_entries(&self) -> Seq<(Seq<char>, Option<Seq<char>>)> {
        self.capabilities.view()
    }

    /// Checks what the TOML grammar cannot: that the identifiers are
    /// reverse-DNS names Android accepts and that every capability is in
    /// the vocabulary. The first problem found is the error.
    pub fn validate(&self) -> (r: Result<(), String>)
        ensures
            match r {
                Ok(()) => config_error(*self) is None,
                Err(e) => config_error(*self) == Some(e@),
            },
    {
        match &self.app.id {
            Some(id) => match validate_reverse_dns(id.as_str()) {
                Err(why) => {
                    return Err(id_error("[app] id ", id.as_str(), why));
                },
                Ok(()) => {},
            },
            None => {},
        }
        match &self.android.application_id {
            Some(id) => match validate_reverse_dns(id.as_str()) {
                Err(why) => {
                    return Err(id_error("[android] application_id ", id.as_str(), why));
                },
                Ok(()) => {},
            },
            None => {},
        }
        let ghost keys = self.capabilities.keys();
        let mut i: usize = 0;
        proof {
            assert(keys.skip(0) =~= keys);
            assert(config_error(*self) == unknown_capability_error(keys));
        }
        while i < self.capabilities.entries.len()
            invariant
                config_error(*self) == unknown_capability_error(keys),
                keys == self.capabilities.keys(),
                keys.len() == self.capabilities.entries@.len(),
                i <= keys.len(),
                unknown_capability_error(keys) == unknown_capability_error(keys.skip(i as int)),
            decreases keys.len() - i,
        {
            let name = self.capabilities.entries[i].0.as_str();
            proof {
                assert(keys[i as int] == name@);
            }
            if Capabilities::lookup(name).is_none() {
                let mut m = String::from_str("unknown capability ");
                let shown = debug_string(name);
                m.append(shown.as_str());
                m.append("\n  known: ");
                let names = Capabilities::names();
                let listed = join(&names, ", ");
                m.append(listed.as_str());
                m.append(
                    "\n  Anything outside this vocabulary goes in [ios.plist] or [android.manifest] instead.",
                );
                proof {
                    assert(keys.skip(i as int)[0] == keys[i as int]);
                    assert(keys.skip(i as int).len() > 0);
                    assert(unknown_capability_error(keys.skip(i as int)) == Some(
                        unknown_capability_message(name@),
                    ));
                    assert(m@ == unknown_capability_message(name@));
                }
                return Err(m);
            }
            proof {
                lemma_unknown_skip(keys, i as int);
            }
            i = i + 1;
        }
        proof {
            assert(keys.skip(i as int).len() == 0);
        }
        Ok(())
    }

    /// The version the project is pinned to. `pin_file` is the contents of
    /// the old `.swiftflow-version` file, if it could be read; it is only
    /// consulted when the configuration names no version.
    pub fn pin(&self, pin_file: Option<&str>) -> (r: Option<String>)
        ensures
            opt_view(r) == pin_of(opt_view(self.swiftflow.version), opt_str_view(pin_file)),
    {
        match &self.swiftflow.version {
            Some(version) => {
                let t = trim(version.as_str());
                if !t.as_str().is_empty() {
                    return Some(t);
                }
            },
            None => {},
        }
        match pin_file {
            Some(text) => {
                let t = trim(text);
                if t.as_str().is_empty() {
                    None
                } else {
                    Some(t)
                }
            },
            None => None,
        }
    }

    /// The Android application id: `[android] application_id`, else the
    /// canonical `[app] id`.
    pub fn android_application_id(&self) -> (r: Option<&str>)
        ensures
            opt_str_view(r) == match opt_view(self.android.application_id) {
                Some(id) => Some(id),
                None => opt_view(self.app.id),
            },
    {
        match &self.android.application_id {
            Some(id) => Some(id.as_str()),
            None => match &self.app.id {
                Some(id) => Some(id.as_str()),
                None => None,
            },
        }
    }

    /// The Android namespace: `[android] namespace`, else the application id.
    pub fn android_namespace(&self) -> (r: Option<&str>)
        ensures
            opt_str_view(r) == match opt_view(self.android.namespace) {
                Some(ns) => Some(ns),
                None => match opt_view(self.android.application_id) {
                    Some(id) => Some(id),
                    None => opt_view(self.app.id),
                },
            },
    {
        match &self.android.namespace {
            Some(ns) => Some(ns.as_str()),
            None => self.android_application_id(),
        }
    }

    /// Settings that are accepted but not yet lowered anywhere, so that
    /// they can be reported rather than silently ignored.
    pub fn unlowered(&self) -> (v: Vec<&'static str>)
        ensures
            str_views(v@) == unlowered_of(*self),
    {
        let mut pending: Vec<&'static str> = Vec::new();
        if self.app.icon.is_some() {
            pending.push("[app] icon — per-platform icon generation");
        }
        let ghost a = str_views(pending@);
        if self.android.icon.foreground.is_some() || self.android.icon.background.is_some() {
            pending.push("[android.icon] — adaptive icon layers");
        }
        let ghost b = str_views(pending@);
        if self.desktop.window_icon.is_some() {
            pending.push("[desktop] window_icon — .desktop generation");
        }
        let ghost c = str_views(pending@);
        if self.ios.plist.len() > 0 || self.ios.category.is_some() {
            pending.push("[ios.plist] / [ios] category — Info.plist merging");
        }
        proof {
            let w1 = listed_if(self.app.icon is Some, "[app] icon — per-platform icon generation"@);
            let w2 = listed_if(
                self.android.icon.foreground is Some || self.android.icon.background is Some,
                "[android.icon] — adaptive icon layers"@,
            );
            let w3 = listed_if(
                self.desktop.window_icon is Some,
                "[desktop] window_icon — .desktop generation"@,
            );
            let w4 = listed_if(
                self.ios.plist@.len() > 0 || self.ios.category is Some,
                "[ios.plist] / [ios] category — Info.plist merging"@,
            );
            assert(a =~= w1);
            assert(b =~= w1 + w2);
            assert(c =~= w1 + w2 + w3);
            assert(str_views(pending@) =~= w1 + w2 + w3 + w4);
        }
        pending
    }

    /// The Android permissions the app needs: the Internet permission, and
    /// those of every known capability, sorted with repeats removed.
    pub fn android_permissions(&self) -> (v: Vec<String>)
        ensures
            strictly_sorted(string_views(v@)),
            forall|p: Seq<char>|
                string_views(v@).contains(p) <==> requested_permissions(
                    self.capabilities.keys(),
                ).contains(p),
    {
        let mut permissions: Vec<String> = Vec::new();
        permissions.push(String::from_str("android.permission.INTERNET"));
        let ghost keys = self.capabilities.keys();
        let mut i: usize = 0;
        proof {
            assert(keys.take(0) =~= Seq::<Seq<char>>::empty());
            assert(string_views(permissions@) =~= requested_permissions(keys.take(0)));
        }
        while i < self.capabilities.entries.len()
            invariant
                keys == self.capabilities.keys(),
                keys.len() == self.capabilities.entries@.len(),
                i <= keys.len(),
                string_views(permissions@) == requested_permissions(keys.take(i as int)),
            decreases keys.len() - i,
        {
            let name = self.capabilities.entries[i].0.as_str();
            proof {
                assert(keys[i as int] == name@);
                assert(keys.take(i + 1).drop_last() =~= keys.take(i as int));
                assert(keys.take(i + 1).last() == name@);
            }
            match Capabilities::lookup(name) {
                Some(lowering) => {
                    let mut j: usize = 0;
                    let ghost base = string_views(permissions@);
                    while j < lowering.android.len()
                        invariant
                            j <= lowering.android@.len(),
                            string_views(permissions@) == base + str_views(lowering.android@).take(j as int),
                        decreases lowering.android@.len() - j,
                    {
                        let ghost prev = permissions@;
                        permissions.push(lowering.android[j].to_owned());
                        proof {
                            assert(string_views(permissions@) =~= string_views(prev).push(
                                lowering.android@[j as int]@,
                            ));
                            assert(str_views(lowering.android@).take(j + 1) =~= str_views(
                                lowering.android@,
                            ).take(j as int).push(lowering.android@[j as int]@));
                            assert(string_views(permissions@) =~= base + str_views(lowering.android@).take(j + 1));
                        }
                        j = j + 1;
                    }
                    proof {
                        assert(str_views(lowering.android@).take(j as int) =~= str_views(lowering.android@));
                        assert(string_views(permissions@) =~= requested_permissions(keys.take(i + 1)));
                    }
                },
                None => {
                    proof {
                        assert(string_views(permissions@) =~= requested_permissions(keys.take(i + 1)));
                    }
                },
            }
            i = i + 1;
        }
        proof {
            assert(keys.take(i as int) =~= keys);
        }
        sort_dedup(permissions)
    }

    /// The Info.plist usage descriptions: for each known capability that
    /// iOS asks a reason for and that gives one, its key and the reason,
    /// in table order.
    pub fn ios_usage_descriptions(&self) -> (v: Vec<(&'static str, String)>)
        ensures
            usage_views(v@) == usage_descriptions_of(self.capability_entries()),
    {
        let mut out: Vec<(&'static str, String)> = Vec::new();
        let ghost entries = self.capability_entries();
        let mut i: usize = 0;
        proof {
            assert(entries.take(0) =~= Seq::<(Seq<char>, Option<Seq<char>>)>::empty());
            assert(usage_views(out@) =~= usage_descriptions_of(entries.take(0)));
        }
        while i < self.capabilities.entries.len()
            invariant
                entries == self.capability_entries(),
                entries.len() == self.capabilities.entries@.len(),
                i <= entries.len(),
                usage_views(out@) == usage_descriptions_of(entries.take(i as int)),
            decreases entries.len() - i,
        {
            let entry = &self.capabilities.entries[i];
            proof {
                assert(entries[i as int] == (entry.0@, opt_view(entry.1.reason)));
                assert(entries.take(i + 1).drop_last() =~= entries.take(i as int));
                assert(entries.take(i + 1).last() == entries[i as int]);
            }
            let ghost prev = out@;
            match Capabilities::lookup(entry.0.as_str()) {
                Some(lowering) => match lowering.ios_usage_key {
                    Some(key) => match &entry.1.reason {
                        Some(reason) => {
                            out.push((key, reason.clone()));
                            proof {
                                assert(usage_views(out@) =~= usage_views(prev).push((key@, reason@)));
                            }
                        },
                        None => {},
                    },
                    None => {},
                },
                None => {},
            }
            proof {
                assert(usage_views(out@) =~= usage_descriptions_of(entries.take(i + 1)));
            }
            i = i + 1;
        }
        proof {
            assert(entries.take(i as int) =~= entries);
        }
        out
    }

    /// The capabilities iOS will ask the user about that give no reason,
    /// in table order.
    pub fn capabilities_missing_reasons(&self) -> (v: Vec<&str>)
        ensures
            str_views(v@) == missing_reasons_of(self.capability_entries()),
    {
        let mut out: Vec<&str> = Vec::new();
        let ghost entries = self.capability_entries();
        let mut i: usize = 0;
        proof {
            assert(entries.take(0) =~= Seq::<(Seq<char>, Option<Seq<char>>)>::empty());
            assert(str_views(out@) =~= missing_reasons_of(entries.take(0)));
        }
        while i < self.capabilities.entries.len()
            invariant
                entries == self.capability_entries(),
                entries.len() == self.capabilities.entries@.len(),
                i <= entries.len(),
                str_views(out@) == missing_reasons_of(entries.take(i as int)),
            decreases entries.len() - i,
        {
            let entry = &self.capabilities.entries[i];
            proof {
                assert(entries[i as int] == (entry.0@, opt_view(entry.1.reason)));
                assert(entries.take(i + 1).drop_last() =~= entries.take(i as int));
                assert(entries.take(i + 1).last() == entries[i as int]);
            }
            let ghost prev = out@;
            if entry.1.reason.is_none() {
                match Capabilities::lookup(entry.0.as_str()) {
                    Some(lowering) => {
                        if lowering.ios_usage_key.is_some() {
                            out.push(entry.0.as_str());
                            proof {
                                assert(str_views(out@) =~= str_views(prev).push(entry.0@));
                            }
                        }
                    },
                    None => {},
                }
            }
            proof {
                assert(str_views(out@) =~= missing_reasons_of(entries.take(i + 1)));
            }
            i = i + 1;
        }
        proof {
            assert(entries.take(i as int) =~= entries);
        }
        out
    }
}


/// The Android permissions the capability called `name` lowers to; none
/// for a name outside the vocabulary.
pub open spec fn permissions_of(name: Seq<char>) -> Seq<Seq<char>> {
    match lowering_of(name) {
        Some(l) => l.1,
        None => seq![],
    }
}

/// The Info.plist key iOS reads the reason for the capability called
/// `name` from; none for a name iOS asks nothing about.
pub open spec fn ios_key_of(name: Seq<char>) -> Option<Seq<char>> {
    match lowering_of(name) {
        Some(l) => l.2,
        None => None,
    }
}

/// The vocabulary, capability by capability: exactly these ten names are
/// known, each lowers to these Android permissions and asks iOS for a
/// reason under this key; every other name is unknown and lowers to
/// nothing.
pub proof fn law_capability_vocabulary(name: Seq<char>)
    ensures
        name == "camera"@ ==> permissions_of(name) == seq!["android.permission.CAMERA"@]
            && ios_key_of(name) == Some("NSCameraUsageDescription"@),
        name == "microphone"@ ==> permissions_of(name) == seq!["android.permission.RECORD_AUDIO"@]
            && ios_key_of(name) == Some("NSMicrophoneUsageDescription"@),
        name == "location-when-in-use"@ ==> permissions_of(name) == seq![
            "android.permission.ACCESS_FINE_LOCATION"@,
            "android.permission.ACCESS_COARSE_LOCATION"@,
        ] && ios_key_of(name) == Some("NSLocationWhenInUseUsageDescription"@),
        name == "location-always"@ ==> permissions_of(name) == seq![
            "android.permission.ACCESS_FINE_LOCATION"@,
            "android.permission.ACCESS_COARSE_LOCATION"@,
            "android.permission.ACCESS_BACKGROUND_LOCATION"@,
        ] && ios_key_of(name) == Some("NSLocationAlwaysAndWhenInUseUsageDescription"@),
        name == "photos"@ ==> permissions_of(name) == seq!["android.permission.READ_MEDIA_IMAGES"@]
            && ios_key_of(name) == Some("NSPhotoLibraryUsageDescription"@),
        name == "contacts"@ ==> permissions_of(name) == seq!["android.permission.READ_CONTACTS"@]
            && ios_key_of(name) == Some("NSContactsUsageDescription"@),
        name == "calendar"@ ==> permissions_of(name) == seq!["android.permission.READ_CALENDAR"@]
            && ios_key_of(name) == Some("NSCalendarsUsageDescription"@),
        name == "bluetooth"@ ==> permissions_of(name) == seq![
            "android.permission.BLUETOOTH_CONNECT"@,
            "android.permission.BLUETOOTH_SCAN"@,
        ] && ios_key_of(name) == Some("NSBluetoothAlwaysUsageDescription"@),
        name == "notifications"@ ==> permissions_of(name) == seq![
            "android.permission.POST_NOTIFICATIONS"@,
        ] && ios_key_of(name) is None,
        name == "network"@ ==> permissions_of(name) == seq!["android.permission.INTERNET"@]
            && ios_key_of(name) is None,
        lowering_of(name) is Some <==> (name == "camera"@ || name == "microphone"@ || name
            == "location-when-in-use"@ || name == "location-always"@ || name == "photos"@ || name
            == "contacts"@ || name == "calendar"@ || name == "bluetooth"@ || name == "notifications"@
            || name == "network"@),
{
    reveal_strlit("camera");
    reveal_strlit("microphone");
    reveal_strlit("location-when-in-use");
    reveal_strlit("location-always");
    reveal_strlit("photos");
    reveal_strlit("contacts");
    reveal_strlit("calendar");
    reveal_strlit("bluetooth");
    reveal_strlit("notifications");
    reveal_strlit("network");
    assert("camera"@.len() == 6 && "photos"@.len() == 6 && "camera"@[0] != "photos"@[0]);
    assert("contacts"@.len() == 8 && "calendar"@.len() == 8 && "contacts"@[1] != "calendar"@[1]);
    assert("microphone"@.len() == 10 && "location-when-in-use"@.len() == 20);
    assert("location-always"@.len() == 15 && "bluetooth"@.len() == 9);
    assert("notifications"@.len() == 13 && "network"@.len() == 7);
    reveal_with_fuel(find_lowering, 11);
}

/// Every app asks for the Internet permission, whatever its capabilities.
pub proof fn law_internet_always_requested(keys: Seq<Seq<char>>)
    ensures
        requested_permissions(keys).contains("android.permission.INTERNET"@),
    decreases keys.len(),
{
    if keys.len() == 0 {
        assert(requested_permissions(keys)[0] == "android.permission.INTERNET"@);
    } else {
        law_internet_always_requested(keys.drop_last());
        let prev = requested_permissions(keys.drop_last());
        let extra = match lowering_of(keys.last()) {
            Some(l) => l.1,
            None => seq![],
        };
        let w = choose|w: int| 0 <= w < prev.len() && prev[w] == "android.permission.INTERNET"@;
        assert((prev + extra)[w] == prev[w]);
    }
}

/// A known capability of the configuration asks for every Android
/// permission it lowers to.
pub proof fn law_capability_permissions_requested(keys: Seq<Seq<char>>, i: int, p: Seq<char>)
    requires
        0 <= i < keys.len(),
        permissions_of(keys[i]).contains(p),
    ensures
        requested_permissions(keys).contains(p),
    decreases keys.len(),
{
    let prev = requested_permissions(keys.drop_last());
    let extra = match lowering_of(keys.last()) {
        Some(l) => l.1,
        None => seq![],
    };
    assert(requested_permissions(keys) == prev + extra);
    if i == keys.len() - 1 {
        let w = choose|w: int| 0 <= w < extra.len() && extra[w] == p;
        assert((prev + extra)[prev.len() + w] == p);
    } else {
        assert(keys.drop_last()[i] == keys[i]);
        law_capability_permissions_requested(keys.drop_last(), i, p);
        let w = choose|w: int| 0 <= w < prev.len() && prev[w] == p;
        assert((prev + extra)[w] == p);
    }
}

} // verus!
