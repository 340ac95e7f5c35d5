//! Tests of the glyph atlas: packing, drawing and the cache.

use quantaterm::atlas::{AtlasError, AtlasRegion, GlyphAtlas, GlyphBitmap, GlyphKey};

fn bitmap(w: u32, h: u32, fill: u8) -> GlyphBitmap {
    GlyphBitmap {
        width: w,
        height: h,
        coverage: vec![fill; (w * h) as usize],
        bearing_x: 64,
        bearing_y: -640,
        advance: 512,
    }
}

fn overlap(a: &AtlasRegion, b: &AtlasRegion) -> bool {
    a.x < b.x + b.width && b.x < a.x + a.width && a.y < b.y + b.height && b.y < a.y + a.height
}

#[test]
fn atlas_starts_empty() {
    let atlas = GlyphAtlas::new(512, 256).unwrap();
    assert_eq!(atlas.dimensions(), (512, 256));
    assert_eq!(atlas.texture_data().len(), 512 * 256 * 4);
    assert!(atlas.texture_data().iter().all(|b| *b == 0));
    assert_eq!(atlas.metrics().cache_hits, 0);
    assert_eq!(atlas.metrics().cache_misses, 0);
}

#[test]
fn oversized_texture_is_refused() {
    assert!(matches!(GlyphAtlas::new(4096, 4096), Err(AtlasError::TooLarge)));
    assert!(GlyphAtlas::new(2048, 2048).is_ok());
}

#[test]
fn second_request_hits_the_cache() {
    let mut atlas = GlyphAtlas::new(256, 256).unwrap();
    let key = GlyphKey::new(7, 'A' as u32, 14 * 64);
    let first = match atlas.lookup(&key) {
        Some(r) => r,
        None => atlas.insert_glyph(&key, &bitmap(8, 10, 200)).unwrap(),
    };
    let second = match atlas.lookup(&key) {
        Some(r) => r,
        None => atlas.insert_glyph(&key, &bitmap(8, 10, 200)).unwrap(),
    };
    assert_eq!(first, second);
    assert_eq!(atlas.metrics().cache_hits, 1);
    assert_eq!(atlas.metrics().cache_misses, 1);
    assert_eq!(atlas.metrics().rasterizations, 1);
}

#[test]
fn glyph_is_drawn_white_with_coverage_inside_padding() {
    let mut atlas = GlyphAtlas::new(64, 64).unwrap();
    let key = GlyphKey::new(1, 66, 640);
    let r = atlas.insert_glyph(&key, &bitmap(3, 2, 77)).unwrap();
    assert_eq!((r.x, r.y, r.width, r.height), (0, 0, 7, 6));
    assert_eq!((r.bearing_x, r.bearing_y, r.advance), (64, -640, 512));
    let t = atlas.texture_data();
    let px = |x: usize, y: usize| &t[(y * 64 + x) * 4..(y * 64 + x) * 4 + 4];
    assert_eq!(px(2, 2), &[255, 255, 255, 77]);
    assert_eq!(px(4, 3), &[255, 255, 255, 77]);
    assert_eq!(px(1, 2), &[0, 0, 0, 0]);
    assert_eq!(px(5, 2), &[0, 0, 0, 0]);
}

#[test]
fn packed_regions_do_not_overlap() {
    let mut atlas = GlyphAtlas::new(64, 64).unwrap();
    let mut regions = Vec::new();
    for g in 0..12u32 {
        let key = GlyphKey::new(1, g, 640);
        regions.push(atlas.insert_glyph(&key, &bitmap(5 + g % 4, 6 + g % 3, 9)).unwrap());
    }
    for i in 0..regions.len() {
        for j in i + 1..regions.len() {
            assert!(!overlap(&regions[i], &regions[j]));
        }
        assert!(regions[i].x + regions[i].width <= 64);
        assert!(regions[i].y + regions[i].height <= 64);
    }
    assert_eq!((regions[0].x, regions[0].y), (0, 0));
}

#[test]
fn full_atlas_refuses_a_glyph() {
    let mut atlas = GlyphAtlas::new(16, 16).unwrap();
    let key = GlyphKey::new(1, 1, 640);
    assert!(matches!(
        atlas.insert_glyph(&key, &bitmap(20, 4, 1)),
        Err(AtlasError::Full { width: 24, height: 8 })
    ));
    assert_eq!(atlas.metrics().rasterizations, 1);
}

#[test]
fn least_recently_used_glyph_is_evicted() {
    let mut atlas = GlyphAtlas::new(1024, 1024).unwrap();
    for g in 0..1000u32 {
        atlas.insert_glyph(&GlyphKey::new(1, g, 640), &bitmap(1, 1, 5)).unwrap();
    }
    assert!(atlas.lookup(&GlyphKey::new(1, 0, 640)).is_some());
    atlas.insert_glyph(&GlyphKey::new(1, 5000, 640), &bitmap(1, 1, 5)).unwrap();
    assert_eq!(atlas.metrics().evictions, 1);
    assert_eq!(atlas.metrics().total_allocations, 1000);
    assert!(atlas.lookup(&GlyphKey::new(1, 1, 640)).is_none());
    assert!(atlas.lookup(&GlyphKey::new(1, 0, 640)).is_some());
}

#[test]
fn clear_resets_everything() {
    let mut atlas = GlyphAtlas::new(32, 32).unwrap();
    let key = GlyphKey::new(1, 1, 640);
    atlas.insert_glyph(&key, &bitmap(2, 2, 9)).unwrap();
    atlas.lookup(&key);
    atlas.clear();
    assert!(atlas.texture_data().iter().all(|b| *b == 0));
    assert_eq!(atlas.metrics().cache_hits, 0);
    assert!(atlas.lookup(&key).is_none());
}

#[test]
fn memory_used_counts_texture_and_entries() {
    let mut atlas = GlyphAtlas::new(32, 32).unwrap();
    assert_eq!(atlas.metrics().memory_used, 32 * 32 * 4);
    atlas.insert_glyph(&GlyphKey::new(1, 1, 640), &bitmap(2, 2, 9)).unwrap();
    assert_eq!(atlas.metrics().memory_used, 32 * 32 * 4 + 56);
}
