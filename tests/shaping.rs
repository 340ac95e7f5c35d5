//! Tests of run analysis, glyph placement and the shaping cache.

use quantaterm::shaping::{
    detect_direction, detect_script, normalize, shape_chars, Direction, GlyphInfo, ShapingCache, ShapingKey,
    SCRIPT_ARABIC, SCRIPT_HEBREW, SCRIPT_LATIN,
};

fn chars(s: &str) -> Vec<char> {
    s.chars().collect()
}

fn metrics(n: usize) -> Vec<(u32, i32)> {
    (0..n).map(|i| (10 + i as u32, 512)).collect()
}

#[test]
fn text_is_composed_to_nfc() {
    assert_eq!(normalize("e\u{301}"), vec!['\u{e9}']);
    assert_eq!(normalize("abc"), chars("abc"));
}

#[test]
fn run_script_and_direction() {
    assert_eq!(detect_script(&chars("abc")), SCRIPT_LATIN);
    assert_eq!(detect_script(&chars("123 !")), SCRIPT_LATIN);
    assert_eq!(detect_script(&chars("1 \u{5e9}\u{5dc}")), SCRIPT_HEBREW);
    assert_eq!(detect_script(&chars("\u{645}\u{631}")), SCRIPT_ARABIC);
    assert_eq!(detect_direction(&chars("abc \u{645}")), Direction::RightToLeft);
    assert_eq!(detect_direction(&chars("abc")), Direction::LeftToRight);
    assert_eq!(Direction::RightToLeft.tag(), "rtl");
}

#[test]
fn clusters_are_byte_offsets_and_marks_join() {
    let cs = chars("a\u{301}\u{e9}b");
    let g = shape_chars(&cs, &metrics(cs.len()), Direction::LeftToRight, 896);
    assert_eq!(g.len(), 3);
    assert_eq!(g.iter().map(|x| x.cluster).collect::<Vec<u32>>(), vec![0, 1, 3]);
    assert_eq!(g[0].glyph_id, 10);
    assert_eq!(g[1].glyph_id, 12);
    assert_eq!(g[0].x_advance, 512);
}

#[test]
fn right_to_left_runs_are_reversed() {
    let cs = chars("\u{5e9}\u{5dc}");
    let g = shape_chars(&cs, &metrics(2), Direction::RightToLeft, 896);
    assert_eq!(g.len(), 2);
    assert_eq!(g[0].glyph_id, 11);
    assert_eq!(g[0].cluster, 2);
    assert_eq!(g[1].cluster, 0);
    assert_eq!(g[0].x_advance, -512);
}

#[test]
fn shaping_cache_hits_on_equal_keys() {
    let mut cache = ShapingCache::new();
    let key = ShapingKey { text: "ab".to_string(), features: vec!["liga".to_string()], script: SCRIPT_LATIN, direction: Direction::LeftToRight };
    assert!(cache.lookup(&key).is_none());
    let glyphs = vec![GlyphInfo { glyph_id: 1, x_advance: 5, y_advance: 0, x_offset: 0, y_offset: 0, cluster: 0 }];
    cache.insert(key.clone(), glyphs.clone());
    assert_eq!(cache.lookup(&key), Some(glyphs));
    let other = ShapingKey { features: vec![], ..key };
    assert!(cache.lookup(&other).is_none());
    assert_eq!(cache.hit_counts(), (1, 3));
    cache.clear();
    assert_eq!(cache.hit_counts(), (0, 0));
}
