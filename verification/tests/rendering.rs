use swiftflow::dsu::{draws_merged, merge_clusters, Dsu, MAX_MERGE_GROUP};
use swiftflow::font::{space_runs, GlyphKey, ShelfPacker, ATLAS_SIZE, PADDING};
use swiftflow::icon::{bundled_faces, is_icon, is_icon_in, IconFace, IconFaces};
use swiftflow::node::{SFFontFamily, SFScrollHit};

#[test]
fn ascii_is_never_an_icon() {
    for c in ['a', 'Z', '0', ' ', '@', '\n'] {
        assert!(!is_icon(c), "{c:?} routed to the icon font");
    }
}

#[test]
fn nothing_is_an_icon_when_every_face_is_compiled_out() {
    assert!(!is_icon('\u{e2b6}'));
    assert!(IconFace::Regular.data().is_none());
}

static FONT: [u8; 4] = [1, 2, 3, 4];
static BOLD: [u8; 2] = [9, 9];

#[test]
fn a_missing_face_falls_back_in_the_documented_order() {
    let faces = IconFaces { thin: None, light: None, regular: None, bold: Some(&BOLD), fill: Some(&FONT) };
    assert_eq!(IconFace::Thin.data_in(&faces), Some(&BOLD[..]));
    assert_eq!(IconFace::Fill.data_in(&faces), Some(&FONT[..]));
    assert!(is_icon_in('\u{e2b6}', &faces));
    assert!(!is_icon_in('a', &faces));
    assert!(!is_icon_in('\u{f900}', &faces));
    assert!(!is_icon_in('\u{e2b6}', &bundled_faces()));
}

#[test]
fn every_weight_resolves_to_a_face() {
    let faces = IconFaces { thin: None, light: Some(&FONT), regular: None, bold: None, fill: None };
    for face in [IconFace::Thin, IconFace::Light, IconFace::Regular, IconFace::Bold, IconFace::Fill] {
        assert!(face.data_in(&faces).is_some(), "{face:?} resolved to no face");
    }
}

#[test]
fn families_round_trip_through_their_raw_values() {
    for raw in 0..5 {
        assert_eq!(SFFontFamily::from_raw(raw).raw(), raw);
    }
    assert_eq!(SFFontFamily::from_raw(99), SFFontFamily::Sans);
    assert!(SFFontFamily::Icon.is_bundled());
    assert!(!SFFontFamily::Serif.is_bundled());
    assert_eq!(SFFontFamily::default(), SFFontFamily::Sans);
}

#[test]
fn glyph_keys_order_by_character_first() {
    let a = GlyphKey { c: 'a', size: 20, weight: 400, family: SFFontFamily::Sans };
    let b = GlyphKey { c: 'b', size: 10, weight: 100, family: SFFontFamily::Sans };
    assert!(a < b);
    assert_eq!(a, GlyphKey { ..a });
}

#[test]
fn space_runs_keep_leading_spaces_with_their_word() {
    assert_eq!(space_runs("  hello world  "), ["  hello", " world", "  "]);
    assert_eq!(space_runs("héllo wörld"), ["héllo", " wörld"]);
    assert!(space_runs("").is_empty());
    let text = "a  b c";
    assert_eq!(space_runs(text).concat(), text);
}

#[test]
fn the_atlas_fills_shelf_by_shelf() {
    let mut packer = ShelfPacker::new();
    assert_eq!(packer.take_dirty_rows(), Some((0, ATLAS_SIZE)));
    assert_eq!(packer.take_dirty_rows(), None);
    assert_eq!(packer.place(10, 20), Some((PADDING, PADDING)));
    assert_eq!(packer.place(10, 5), Some((PADDING + 10 + PADDING, PADDING)));
    assert_eq!(packer.take_dirty_rows(), Some((PADDING, PADDING + 20 + 1)));
    assert_eq!(packer.place(ATLAS_SIZE - 2 * PADDING, 8), Some((PADDING, PADDING + 20 + PADDING)));
    assert_eq!(packer.place(0, 8), None);
}

#[test]
fn a_full_atlas_refuses_and_stays_as_it_was() {
    let mut packer = ShelfPacker::new();
    assert_eq!(packer.place(100, ATLAS_SIZE - 2 * PADDING), Some((PADDING, PADDING)));
    assert_eq!(packer.place(ATLAS_SIZE, 1), None);
    assert_eq!(packer.place(10, 1), Some((PADDING + 100 + PADDING, PADDING)));
}

#[test]
fn merging_groups_exactly_the_linked_shapes() {
    let clusters = merge_clusters(5, &vec![(0, 2), (3, 4), (2, 0)]);
    assert_eq!(clusters, vec![vec![0, 2], vec![1], vec![3, 4]]);
    assert!(merge_clusters(0, &vec![]).is_empty());
}

#[test]
fn union_find_joins_sets() {
    let mut d = Dsu::new(4);
    d.union(0, 1);
    d.union(2, 3);
    assert_eq!(d.find(0), d.find(1));
    assert_ne!(d.find(1), d.find(2));
    d.union(1, 3);
    assert_eq!(d.find(0), d.find(2));
}

#[test]
fn only_small_groups_are_merged() {
    assert!(!draws_merged(1));
    assert!(draws_merged(2));
    assert!(draws_merged(MAX_MERGE_GROUP));
    assert!(!draws_merged(MAX_MERGE_GROUP + 1));
}

#[test]
fn a_scroll_hit_is_plain_data() {
    let hit = SFScrollHit { scroll_id: 3, axis: 1 };
    assert_eq!(hit, SFScrollHit { scroll_id: 3, axis: 1 });
}
