//! The glyph atlas: rasterized glyphs packed on shelves of one RGBA
//! texture, found again through a least-recently-used cache.

use std::num::NonZeroUsize;
use lru::LruCache;
use vstd::prelude::*;

verus! {

/// The key under which the cache files a glyph: font, glyph, size in 1/64
/// px, subpixel x and y.
pub type CacheKey = (u64, u32, u32, u8, u8);

#[verifier::external_type_specification]
#[verifier::external_body]
#[verifier::reject_recursive_types(K)]
#[verifier::reject_recursive_types(V)]
#[verifier::reject_recursive_types(S)]
pub struct ExLruCache<K, V, S>(LruCache<K, V, S>);

#[verifier::external_type_specification]
#[verifier::external_body]
pub struct ExDefaultHasher(lru::DefaultHasher);

/// A placed glyph: its rectangle in the texture and its metrics in 1/64 px.
#[derive(Debug, Clone, Copy, PartialEq, Eq, Structural)]
pub struct AtlasRegion {
    /// Left edge.
    pub x: u32,
    /// Top edge.
    pub y: u32,
    /// Width, padding included.
    pub width: u32,
    /// Height, padding included.
    pub height: u32,
    /// Horizontal bearing in 1/64 px.
    pub bearing_x: i32,
    /// Vertical bearing in 1/64 px.
    pub bearing_y: i32,
    /// Advance in 1/64 px.
    pub advance: i32,
}

/// The cache's entries, least recently used first.
pub uninterp spec fn cache_entries(c: LruCache<CacheKey, AtlasRegion>) -> Seq<(CacheKey, AtlasRegion)>;

/// The cache's capacity.
pub uninterp spec fn cache_capacity(c: LruCache<CacheKey, AtlasRegion>) -> nat;

/// The position of key `k` among `s`, when it is there.
pub open spec fn key_index(s: Seq<(CacheKey, AtlasRegion)>, k: CacheKey) -> int {
    choose|i: int| 0 <= i < s.len() && s[i].0 == k
}

/// Whether key `k` is among `s`.
pub open spec fn has_key(s: Seq<(CacheKey, AtlasRegion)>, k: CacheKey) -> bool {
    exists|i: int| 0 <= i < s.len() && (#[trigger] s[i]).0 == k
}

/// Relies on `LruCache::new`: an empty cache of capacity `cap`.
#[verifier::external_body]
fn cache_new(cap: usize) -> (c: LruCache<CacheKey, AtlasRegion>)
    requires
        cap > 0,
    ensures
        cache_entries(c).len() == 0,
        cache_capacity(c) == cap,
{
    LruCache::new(NonZeroUsize::new(cap).unwrap())
}

/// Relies on `LruCache::get`: the value of `k`, which becomes the most
/// recently used; nothing changes when `k` is absent.
#[verifier::external_body]
fn cache_get(c: &mut LruCache<CacheKey, AtlasRegion>, k: &CacheKey) -> (r: Option<AtlasRegion>)
    ensures
        cache_capacity(*final(c)) == cache_capacity(*old(c)),
        has_key(cache_entries(*old(c)), *k) ==> {
            let i = key_index(cache_entries(*old(c)), *k);
            &&& r == Some(cache_entries(*old(c))[i].1)
            &&& cache_entries(*final(c)) == cache_entries(*old(c)).remove(i).push(cache_entries(*old(c))[i])
        },
        !has_key(cache_entries(*old(c)), *k) ==> r is None && cache_entries(*final(c)) == cache_entries(*old(c)),
{
    c.get(k).copied()
}

/// Relies on `LruCache::push`: files `v` under `k` as the most recently
/// used; an entry with key `k` is replaced and handed back, else when the
/// cache is full the least recently used entry is evicted and handed back.
#[verifier::external_body]
fn cache_push(c: &mut LruCache<CacheKey, AtlasRegion>, k: CacheKey, v: AtlasRegion) -> (r: Option<(CacheKey, AtlasRegion)>)
    ensures
        cache_capacity(*final(c)) == cache_capacity(*old(c)),
        has_key(cache_entries(*old(c)), k) ==> {
            let i = key_index(cache_entries(*old(c)), k);
            &&& r == Some(cache_entries(*old(c))[i])
            &&& cache_entries(*final(c)) == cache_entries(*old(c)).remove(i).push((k, v))
        },
        !has_key(cache_entries(*old(c)), k) && cache_entries(*old(c)).len() == cache_capacity(*old(c)) ==> {
            &&& r == Some(cache_entries(*old(c))[0])
            &&& cache_entries(*final(c)) == cache_entries(*old(c)).drop_first().push((k, v))
        },
        !has_key(cache_entries(*old(c)), k) && cache_entries(*old(c)).len() != cache_capacity(*old(c)) ==> {
            &&& r is None
            &&& cache_entries(*final(c)) == cache_entries(*old(c)).push((k, v))
        },
{
    c.push(k, v)
}

/// Relies on `LruCache::len`: the number of entries.
#[verifier::external_body]
fn cache_len(c: &LruCache<CacheKey, AtlasRegion>) -> (r: usize)
    ensures
        r == cache_entries(*c).len(),
{
    c.len()
}

/// Relies on `LruCache::clear`: removes every entry.
#[verifier::external_body]
fn cache_clear(c: &mut LruCache<CacheKey, AtlasRegion>)
    ensures
        cache_entries(*final(c)).len() == 0,
        cache_capacity(*final(c)) == cache_capacity(*old(c)),
{
    c.clear()
}

/// Identifies a rasterized glyph: font, glyph, size in 1/64 px, subpixel
/// offsets.
#[derive(Debug, Clone, Copy, PartialEq, Eq, Hash, Structural)]
pub struct GlyphKey {
    /// Identity of the font.
    pub font_id: u64,
    /// Glyph in the font.
    pub glyph_id: u32,
    /// Size in 1/64 px.
    pub size: u32,
    /// Horizontal subpixel offset.
    pub subpixel_x: u8,
    /// Vertical subpixel offset.
    pub subpixel_y: u8,
}

impl GlyphKey {
    /// The key of glyph `glyph_id` of font `font_id` at `size` 1/64 px,
    /// without subpixel offset.
    pub fn new(font_id: u64, glyph_id: u32, size: u32) -> (k: GlyphKey)
        ensures
            k == (GlyphKey { font_id, glyph_id, size, subpixel_x: 0, subpixel_y: 0 }),
    {
        GlyphKey { font_id, glyph_id, size, subpixel_x: 0, subpixel_y: 0 }
    }

    /// The key as the cache files it.
    pub open spec fn spec_cache_key(self) -> CacheKey {
        (self.font_id, self.glyph_id, self.size, self.subpixel_x, self.subpixel_y)
    }

    /// The key as the cache files it.
    pub fn cache_key(&self) -> (k: CacheKey)
        ensures
            k == self.spec_cache_key(),
    {
        (self.font_id, self.glyph_id, self.size, self.subpixel_x, self.subpixel_y)
    }
}

/// A glyph as a rasterizer produced it: coverage row by row, and metrics in
/// 1/64 px.
#[derive(Debug, Clone)]
pub struct GlyphBitmap {
    /// Width in pixels.
    pub width: u32,
    /// Height in pixels.
    pub height: u32,
    /// Coverage of each pixel, row by row.
    pub coverage: Vec<u8>,
    /// Horizontal bearing in 1/64 px.
    pub bearing_x: i32,
    /// Vertical bearing in 1/64 px.
    pub bearing_y: i32,
    /// Advance in 1/64 px.
    pub advance: i32,
}

/// A horizontal strip of the texture that glyphs are packed into, left to
/// right.
#[derive(Debug, Clone, Copy, PartialEq, Eq, Structural)]
pub struct Shelf {
    /// Left edge.
    pub x: u32,
    /// Top edge.
    pub y: u32,
    /// Width.
    pub width: u32,
    /// Height.
    pub height: u32,
    /// Width taken so far, from the left edge.
    pub used_width: u32,
}

/// Counters of the atlas's work.
#[derive(Debug, Clone, Copy, PartialEq, Eq, Structural)]
pub struct AtlasMetrics {
    /// Glyphs in the cache.
    pub total_allocations: usize,
    /// Lookups that found their glyph.
    pub cache_hits: usize,
    /// Lookups that did not.
    pub cache_misses: usize,
    /// Glyphs pushed out of the cache.
    pub evictions: usize,
    /// Glyphs rasterized.
    pub rasterizations: usize,
    /// Rows of the texture taken by shelves.
    pub used_rows: u32,
    /// Bytes taken by the texture and the cache's entries.
    pub memory_used: usize,
}

/// Why a glyph could not be placed.
#[derive(Debug, Clone, Copy, PartialEq, Eq, Structural)]
pub enum AtlasError {
    /// No shelf has room and no new shelf fits.
    Full {
        /// Width asked for, padding included.
        width: u32,
        /// Height asked for, padding included.
        height: u32,
    },
    /// The texture or a glyph is larger than the atlas can hold.
    TooLarge,
}

/// Whether two rectangles share no pixel.
pub open spec fn disjoint(a: AtlasRegion, b: AtlasRegion) -> bool {
    a.x + a.width <= b.x || b.x + b.width <= a.x || a.y + a.height <= b.y || b.y + b.height <= a.y
}

/// Whether region `r` lies in the taken part of shelf `s`.
pub open spec fn on_shelf(s: Shelf, r: AtlasRegion) -> bool {
    r.y == s.y && r.height <= s.height && s.x <= r.x && r.x + r.width <= s.x + s.used_width
}

/// Whether region `r` lies in the taken part of some shelf of `sh`.
pub open spec fn on_some_shelf(sh: Seq<Shelf>, r: AtlasRegion) -> bool {
    exists|k: int| 0 <= k < sh.len() && on_shelf(#[trigger] sh[k], r)
}

/// The first shelf of `sh` with room for `w` by `h`, or `sh.len()`.
pub open spec fn first_fit(sh: Seq<Shelf>, w: int, h: int) -> int
    decreases sh.len(),
{
    if sh.len() == 0 {
        0
    } else {
        let k = first_fit(sh.drop_last(), w, h);
        if k < sh.len() - 1 {
            k
        } else if sh.last().used_width + w <= sh.last().width && h <= sh.last().height {
            sh.len() - 1
        } else {
            sh.len() as int
        }
    }
}

/// Where `w` by `h` pixels go in an atlas with shelves `sh`, next shelf
/// top `cy`, and size `width` by `height`: on the first shelf with room,
/// else on a new shelf at `cy` when it fits; `None` when neither does.
pub open spec fn placement(sh: Seq<Shelf>, cy: int, width: int, height: int, w: int, h: int) -> Option<(int, int)> {
    let k = first_fit(sh, w, h);
    if k < sh.len() {
        Some(((sh[k].x + sh[k].used_width) as int, sh[k].y as int))
    } else if cy + h <= height && w <= width {
        Some((0, cy))
    } else {
        None
    }
}

/// Default texture side in pixels.
pub const DEFAULT_SIZE: u32 = 2048;

/// Bytes one cache entry takes: its key and its region.
pub const CACHE_ENTRY_BYTES: usize = 56;

/// Most glyphs the cache holds.
pub const CACHE_CAPACITY: usize = 1000;

/// Most bytes the texture may take.
pub const MAX_MEMORY: usize = 33554432;

/// Empty pixels around each glyph.
pub const PADDING: u32 = 2;

/// Shelf-packed RGBA texture of glyphs with a least-recently-used cache.
#[derive(Debug)]
pub struct GlyphAtlas {
    /// Texture width.
    pub width: u32,
    /// Texture height.
    pub height: u32,
    /// Placed glyphs by key.
    pub glyph_cache: LruCache<CacheKey, AtlasRegion>,
    /// Shelves, top to bottom.
    pub shelves: Vec<Shelf>,
    /// Top of the next shelf.
    pub current_y: u32,
    /// Texture bytes, RGBA row by row.
    pub texture_data: Vec<u8>,
    /// Counters.
    pub metrics: AtlasMetrics,
    /// Most bytes the texture may take.
    pub max_memory: usize,
    /// Empty pixels around each glyph.
    pub padding: u32,
}

impl GlyphAtlas {
    /// The cache's entries, least recently used first.
    pub open spec fn entries(&self) -> Seq<(CacheKey, AtlasRegion)> {
        cache_entries(self.glyph_cache)
    }

    /// The shelves are stacked without overlap inside the texture, and every
    /// cached glyph lies on one, apart from every other.
    pub open spec fn wf(&self) -> bool {
        &&& self.texture_data@.len() == self.width * self.height * 4
        &&& self.current_y <= self.height
        &&& forall|k: int| 0 <= k < self.shelves@.len() ==> {
            let s = #[trigger] self.shelves@[k];
            &&& s.x == 0
            &&& s.width == self.width
            &&& s.used_width <= s.width
            &&& s.y + s.height <= self.current_y
        }
        &&& forall|k: int, l: int| 0 <= k < l < self.shelves@.len() ==> (#[trigger] self.shelves@[k]).y + self.shelves@[k].height <= (#[trigger] self.shelves@[l]).y
        &&& forall|i: int| 0 <= i < self.entries().len() ==> on_some_shelf(self.shelves@, (#[trigger] self.entries()[i]).1)
        &&& forall|i: int, j: int| 0 <= i < j < self.entries().len() ==> (#[trigger] self.entries()[i]).0 != (#[trigger] self.entries()[j]).0
        &&& forall|i: int, j: int| 0 <= i < j < self.entries().len() ==> disjoint((#[trigger] self.entries()[i]).1, (#[trigger] self.entries()[j]).1)
        &&& self.entries().len() <= cache_capacity(self.glyph_cache)
        &&& cache_capacity(self.glyph_cache) == CACHE_CAPACITY
        &&& self.width * self.height * 4 <= MAX_MEMORY
        &&& self.metrics.total_allocations == self.entries().len()
        &&& self.metrics.memory_used == self.texture_data@.len() + self.entries().len() * CACHE_ENTRY_BYTES
    }

    /// An empty atlas of `width` by `height` pixels; refused when the
    /// texture would pass the memory ceiling.
    pub fn new(width: u32, height: u32) -> (r: Result<GlyphAtlas, AtlasError>)
        ensures
            r is Err <==> width as int * height as int * 4 > MAX_MEMORY,
            r matches Ok(a) ==> a.wf() && a.width == width && a.height == height && a.entries().len() == 0
                && cache_capacity(a.glyph_cache) == CACHE_CAPACITY && a.shelves@.len() == 0 && a.current_y == 0
                && a.padding == PADDING && a.metrics.cache_hits == 0 && a.metrics.cache_misses == 0
                && a.metrics.rasterizations == 0 && a.metrics.evictions == 0
                && forall|i: int| 0 <= i < a.texture_data@.len() ==> #[trigger] a.texture_data@[i] == 0,
    {
        assert(width as u64 * height as u64 <= u64::MAX) by (nonlinear_arith)
            requires
                width <= u32::MAX,
                height <= u32::MAX;
        let area: u64 = width as u64 * height as u64;
        if area > (MAX_MEMORY / 4) as u64 {
            return Err(AtlasError::TooLarge);
        }
        let n = (area * 4) as usize;
        let mut texture_data: Vec<u8> = Vec::new();
        let mut i: usize = 0;
        while i < n
            invariant
                i <= n,
                texture_data@.len() == i,
                forall|k: int| 0 <= k < i ==> #[trigger] texture_data@[k] == 0,
            decreases n - i,
        {
            texture_data.push(0);
            i = i + 1;
        }
        let a = GlyphAtlas {
            width,
            height,
            glyph_cache: cache_new(CACHE_CAPACITY),
            shelves: Vec::new(),
            current_y: 0,
            texture_data,
            metrics: AtlasMetrics {
                total_allocations: 0,
                cache_hits: 0,
                cache_misses: 0,
                evictions: 0,
                rasterizations: 0,
                used_rows: 0,
                memory_used: n,
            },
            max_memory: MAX_MEMORY,
            padding: PADDING,
        };
        Ok(a)
    }

    /// The first shelf with room for `w` by `h`, or the number of shelves.
    fn fit_index(&self, w: u32, h: u32) -> (r: usize)
        ensures
            r == first_fit(self.shelves@, w as int, h as int),
            r <= self.shelves@.len(),
    {
        let mut k: usize = 0;
        proof {
            assert(self.shelves@.subrange(0, 0) =~= Seq::<Shelf>::empty());
        }
        while k < self.shelves.len()
            invariant
                k <= self.shelves@.len(),
                first_fit(self.shelves@.subrange(0, k as int), w as int, h as int) == k,
            decreases self.shelves@.len() - k,
        {
            let s = self.shelves[k];
            proof {
                let p = self.shelves@.subrange(0, k + 1);
                assert(p.drop_last() =~= self.shelves@.subrange(0, k as int));
                assert(p.last() == s);
            }
            if s.used_width as u64 + w as u64 <= s.width as u64 && h <= s.height {
                proof {
                    lemma_first_fit_prefix(self.shelves@, w as int, h as int, k as int);
                }
                return k;
            }
            k = k + 1;
        }
        assert(self.shelves@.subrange(0, self.shelves@.len() as int) =~= self.shelves@);
        k
    }

    /// Takes room for `w` by `h` pixels: on the first shelf with room, else
    /// on a new shelf below the others; `None` when neither fits.
    fn find_space(&mut self, w: u32, h: u32) -> (r: Option<(u32, u32)>)
        requires
            old(self).wf(),
        ensures
            final(self).wf(),
            final(self).glyph_cache == old(self).glyph_cache,
            final(self).texture_data == old(self).texture_data,
            final(self).width == old(self).width && final(self).height == old(self).height,
            final(self).metrics == old(self).metrics && final(self).padding == old(self).padding,
            r matches Some((x, y)) ==> {
                let reg = AtlasRegion { x, y, width: w, height: h, bearing_x: 0, bearing_y: 0, advance: 0 };
                &&& on_some_shelf(final(self).shelves@, reg)
                &&& x + w <= old(self).width && y + h <= old(self).height
                &&& forall|i: int| 0 <= i < old(self).entries().len() ==> disjoint(#[trigger] old(self).entries()[i].1, reg)
            },
            ({
                let place = placement(old(self).shelves@, old(self).current_y as int, old(self).width as int,
                    old(self).height as int, w as int, h as int);
                &&& r is None <==> place is None
                &&& r matches Some((x, y)) ==> place == Some((x as int, y as int))
            }),
    {
        let k = self.fit_index(w, h);
        proof {
            lemma_first_fit_fits(self.shelves@, w as int, h as int);
        }
        if k < self.shelves.len() {
            let s = self.shelves[k];
            let x = s.x + s.used_width;
            let y = s.y;
            let ghost before = self.shelves@;
            self.shelves.set(k, Shelf { used_width: s.used_width + w, ..s });
            proof {
                let reg = AtlasRegion { x, y, width: w, height: h, bearing_x: 0, bearing_y: 0, advance: 0 };
                assert(on_shelf(self.shelves@[k as int], reg));
                assert forall|i: int| 0 <= i < self.entries().len() implies on_some_shelf(self.shelves@, (#[trigger] self.entries()[i]).1) by {
                    let e = self.entries()[i].1;
                    let m = choose|m: int| 0 <= m < before.len() && on_shelf(#[trigger] before[m], e);
                    assert(on_shelf(self.shelves@[m], e));
                }
                assert forall|i: int| 0 <= i < old(self).entries().len() implies disjoint(#[trigger] old(self).entries()[i].1, reg) by {
                    let e = old(self).entries()[i].1;
                    let m = choose|m: int| 0 <= m < before.len() && on_shelf(#[trigger] before[m], e);
                    if m < k {
                        assert(before[m].y + before[m].height <= before[k as int].y);
                    } else if m > k {
                        assert(before[k as int].y + before[k as int].height <= before[m].y);
                    }
                }
                assert forall|a: int, b: int| 0 <= a < b < self.shelves@.len() implies (#[trigger] self.shelves@[a]).y + self.shelves@[a].height <= (#[trigger] self.shelves@[b]).y by {
                    assert(before[a].y + before[a].height <= before[b].y);
                }
            }
            return Some((x, y));
        }
        if self.current_y as u64 + h as u64 <= self.height as u64 && w <= self.width {
            let y = self.current_y;
            let ghost before = self.shelves@;
            self.shelves.push(Shelf { x: 0, y, width: self.width, height: h, used_width: w });
            self.current_y = y + h;
            proof {
                let reg = AtlasRegion { x: 0, y, width: w, height: h, bearing_x: 0, bearing_y: 0, advance: 0 };
                assert(on_shelf(self.shelves@[before.len() as int], reg));
                assert forall|i: int| 0 <= i < self.entries().len() implies on_some_shelf(self.shelves@, (#[trigger] self.entries()[i]).1) by {
                    let e = self.entries()[i].1;
                    let m = choose|m: int| 0 <= m < before.len() && on_shelf(#[trigger] before[m], e);
                    assert(self.shelves@[m] == before[m]);
                }
                assert forall|i: int| 0 <= i < old(self).entries().len() implies disjoint(#[trigger] old(self).entries()[i].1, reg) by {
                    let e = old(self).entries()[i].1;
                    let m = choose|m: int| 0 <= m < before.len() && on_shelf(#[trigger] before[m], e);
                    assert(before[m].y + before[m].height <= y);
                }
                assert forall|a: int, b: int| 0 <= a < b < self.shelves@.len() implies (#[trigger] self.shelves@[a]).y + self.shelves@[a].height <= (#[trigger] self.shelves@[b]).y by {
                    if b < before.len() {
                        assert(before[a].y + before[a].height <= before[b].y);
                    } else {
                        assert(self.shelves@[a] == before[a]);
                    }
                }
                assert forall|m: int| 0 <= m < self.shelves@.len() implies {
                    let s = #[trigger] self.shelves@[m];
                    &&& s.x == 0
                    &&& s.width == self.width
                    &&& s.used_width <= s.width
                    &&& s.y + s.height <= self.current_y
                } by {
                    if m < before.len() {
                        assert(self.shelves@[m] == before[m]);
                    }
                }
            }
            return Some((0, y));
        }
        None
    }
}

/// Index of the first byte of pixel `(x, y)` in a texture `w` pixels wide.
pub open spec fn pixel_index(w: int, x: int, y: int) -> int {
    (y * w + x) * 4
}

/// Whether pixel `q` of bitmap `cov`, rows `bm_w` wide, shows in texture
/// `t`, `w` pixels wide, placed at `(x0, y0)`: white, with the coverage as
/// alpha.
pub open spec fn pixel_shows(t: Seq<u8>, w: int, x0: int, y0: int, bm_w: int, cov: Seq<u8>, q: int) -> bool {
    let i = pixel_index(w, x0 + q % bm_w, y0 + q / bm_w);
    &&& t[i] == 255u8
    &&& t[i + 1] == 255u8
    &&& t[i + 2] == 255u8
    &&& t[i + 3] == cov[q]
}

/// Whether the first `n` pixels of bitmap `cov` show in texture `t`.
pub open spec fn shows_glyph(t: Seq<u8>, w: int, x0: int, y0: int, bm_w: int, cov: Seq<u8>, n: int) -> bool {
    forall|q: int| 0 <= q < n ==> #[trigger] pixel_shows(t, w, x0, y0, bm_w, cov, q)
}

/// A pixel inside the texture has its four bytes inside the buffer.
proof fn lemma_pixel_in_bounds(w: int, h: int, x: int, y: int)
    requires
        0 <= x < w,
        0 <= y < h,
    ensures
        0 <= pixel_index(w, x, y),
        pixel_index(w, x, y) + 3 < w * h * 4,
{
    assert(y * w + x < w * h) by (nonlinear_arith)
        requires
            0 <= x < w,
            0 <= y < h;
    assert(0 <= y * w) by (nonlinear_arith)
        requires
            0 <= y,
            0 <= w;
}

/// Two different pixels inside a row of width `w` have byte groups apart.
proof fn lemma_pixels_apart(w: int, x1: int, y1: int, x2: int, y2: int)
    requires
        0 <= x1 < w,
        0 <= x2 < w,
        0 <= y1,
        0 <= y2,
        x1 != x2 || y1 != y2,
    ensures
        pixel_index(w, x1, y1) + 4 <= pixel_index(w, x2, y2) || pixel_index(w, x2, y2) + 4 <= pixel_index(w, x1, y1),
{
    if y1 == y2 {
    } else if y1 < y2 {
        assert(y1 * w + w <= y2 * w) by (nonlinear_arith)
            requires
                y1 < y2,
                0 <= w;
    } else {
        assert(y2 * w + w <= y1 * w) by (nonlinear_arith)
            requires
                y2 < y1,
                0 <= w;
    }
}

/// Position `q` of a row-major order of rows `bw` wide is column
/// `q % bw` of row `q / bw`.
proof fn lemma_row_major(q: int, bw: int, h: int)
    requires
        0 <= q < bw * h,
        bw > 0,
    ensures
        0 <= q % bw < bw,
        0 <= q / bw < h,
        q == (q / bw) * bw + q % bw,
{
    vstd::arithmetic::div_mod::lemma_fundamental_div_mod(q, bw);
    vstd::arithmetic::div_mod::lemma_div_pos_is_pos(q, bw);
    assert(0 <= q % bw < bw);
    let d = q / bw;
    let m = q % bw;
    assert(d * bw == bw * d) by (nonlinear_arith);
    assert(d < h) by (nonlinear_arith)
        requires
            q == bw * d + m,
            0 <= m,
            q < bw * h,
            bw > 0;
}

impl GlyphAtlas {
    /// Draws `bm` with its top left corner at `(x0, y0)`: each pixel white
    /// with the coverage as alpha.
    fn write_glyph(&mut self, x0: u32, y0: u32, bm: &GlyphBitmap)
        requires
            old(self).wf(),
            x0 + bm.width <= old(self).width,
            y0 + bm.height <= old(self).height,
            bm.coverage@.len() == bm.width * bm.height,
        ensures
            final(self).wf(),
            final(self).glyph_cache == old(self).glyph_cache,
            final(self).shelves == old(self).shelves,
            final(self).current_y == old(self).current_y,
            final(self).width == old(self).width && final(self).height == old(self).height,
            final(self).metrics == old(self).metrics && final(self).padding == old(self).padding,
            bm.width > 0 ==> shows_glyph(final(self).texture_data@, old(self).width as int, x0 as int, y0 as int,
                bm.width as int, bm.coverage@, bm.coverage@.len() as int),
    {
        let w = self.width as usize;
        let bw = bm.width as usize;
        let n = bm.coverage.len();
        let tl = self.texture_data.len();
        let mut q: usize = 0;
        while q < n
            invariant
                tl == self.texture_data@.len(),
                self.wf(),
                self.glyph_cache == old(self).glyph_cache,
                self.shelves == old(self).shelves,
                self.current_y == old(self).current_y,
                self.width == old(self).width && self.height == old(self).height,
                self.metrics == old(self).metrics && self.padding == old(self).padding,
                w == self.width,
                bw == bm.width,
                n == bm.coverage@.len(),
                n == bm.width * bm.height,
                x0 + bm.width <= self.width,
                y0 + bm.height <= self.height,
                q <= n,
                bw > 0 ==> shows_glyph(self.texture_data@, w as int, x0 as int, y0 as int, bw as int, bm.coverage@, q as int),
            decreases n - q,
        {
            assert(bw > 0) by (nonlinear_arith)
                requires
                    q < n,
                    n == bw * bm.height;
            proof {
                lemma_row_major(q as int, bw as int, bm.height as int);
                lemma_pixel_in_bounds(w as int, self.height as int, x0 + (q as int) % (bw as int), y0 + (q as int) / (bw as int));
            }
            let px = x0 as usize + q % bw;
            let py = y0 as usize + q / bw;
            assert(py * w + px < w * self.height) by (nonlinear_arith)
                requires
                    px < w,
                    py < self.height;
            let i = (py * w + px) * 4;
            let a = bm.coverage[q];
            let ghost before = self.texture_data@;
            assert(shows_glyph(before, w as int, x0 as int, y0 as int, bw as int, bm.coverage@, q as int));
            self.texture_data.set(i, 255);
            self.texture_data.set(i + 1, 255);
            self.texture_data.set(i + 2, 255);
            self.texture_data.set(i + 3, a);
            proof {
                assert forall|r: int| 0 <= r < q + 1 implies #[trigger] pixel_shows(self.texture_data@, w as int, x0 as int, y0 as int, bw as int, bm.coverage@, r) by {
                    let j = pixel_index(w as int, x0 + r % (bw as int), y0 + r / (bw as int));
                    if r < q {
                        lemma_row_major(r, bw as int, bm.height as int);
                        lemma_row_major(q as int, bw as int, bm.height as int);
                        assert(pixel_index(w as int, x0 as int + r % (bw as int), y0 as int + r / (bw as int)) == j);
                        assert(pixel_shows(before, w as int, x0 as int, y0 as int, bw as int, bm.coverage@, r));
                        assert(r % (bw as int) != (q as int) % (bw as int) || r / (bw as int) != (q as int) / (bw as int));
                        lemma_pixels_apart(w as int, x0 + r % (bw as int), y0 + r / (bw as int), px as int, py as int);
                        lemma_pixel_in_bounds(w as int, self.height as int, x0 + r % (bw as int), y0 + r / (bw as int));
                    } else {
                        assert(j == i);
                    }
                }
                assert(shows_glyph(self.texture_data@, w as int, x0 as int, y0 as int, bw as int, bm.coverage@, q + 1));
            }
            q = q + 1;
        }
    }
}

impl GlyphAtlas {
    /// The region of `key` when the cache holds it, which then becomes the
    /// most recently used; counts a hit or a miss.
    pub fn lookup(&mut self, key: &GlyphKey) -> (r: Option<AtlasRegion>)
        requires
            old(self).wf(),
        ensures
            final(self).wf(),
            final(self).shelves == old(self).shelves,
            final(self).texture_data == old(self).texture_data,
            final(self).current_y == old(self).current_y,
            final(self).width == old(self).width && final(self).height == old(self).height,
            final(self).padding == old(self).padding,
            cache_capacity(final(self).glyph_cache) == cache_capacity(old(self).glyph_cache),
            has_key(old(self).entries(), key.spec_cache_key()) ==> {
                let i = key_index(old(self).entries(), key.spec_cache_key());
                &&& r == Some(old(self).entries()[i].1)
                &&& final(self).entries() == old(self).entries().remove(i).push(old(self).entries()[i])
                &&& final(self).metrics == (AtlasMetrics { cache_hits: sat_inc(old(self).metrics.cache_hits), ..old(self).metrics })
            },
            !has_key(old(self).entries(), key.spec_cache_key()) ==> {
                &&& r is None
                &&& final(self).entries() == old(self).entries()
                &&& final(self).metrics == (AtlasMetrics { cache_misses: sat_inc(old(self).metrics.cache_misses), ..old(self).metrics })
            },
    {
        let ck = key.cache_key();
        let ghost before = self.entries();
        let r = cache_get(&mut self.glyph_cache, &ck);
        match r {
            Some(_) => {
                self.metrics.cache_hits = self.metrics.cache_hits.saturating_add(1);
                proof {
                    let i = key_index(before, ck);
                    lemma_move_to_back_keeps_wf(before, self.entries(), i);
                }
            },
            None => {
                self.metrics.cache_misses = self.metrics.cache_misses.saturating_add(1);
            },
        }
        r
    }

    /// Places rasterized glyph `bm` for `key`: takes room for it with its
    /// padding, draws it, and files its region in the cache as the most
    /// recently used, which may evict the least recently used glyph.
    pub fn insert_glyph(&mut self, key: &GlyphKey, bm: &GlyphBitmap) -> (r: Result<AtlasRegion, AtlasError>)
        requires
            old(self).wf(),
            bm.coverage@.len() == bm.width * bm.height,
        ensures
            final(self).wf(),
            final(self).width == old(self).width && final(self).height == old(self).height,
            final(self).metrics.rasterizations == sat_inc(old(self).metrics.rasterizations),
            final(self).metrics.cache_hits == old(self).metrics.cache_hits,
            final(self).metrics.cache_misses == old(self).metrics.cache_misses,
            bm.width + 2 * old(self).padding > u32::MAX || bm.height + 2 * old(self).padding > u32::MAX ==> r == Err::<AtlasRegion, AtlasError>(AtlasError::TooLarge),
            r matches Ok(reg) ==> {
                let k = key.spec_cache_key();
                &&& reg.width == bm.width + 2 * old(self).padding
                &&& reg.height == bm.height + 2 * old(self).padding
                &&& reg.bearing_x == bm.bearing_x && reg.bearing_y == bm.bearing_y && reg.advance == bm.advance
                &&& reg.x + reg.width <= old(self).width && reg.y + reg.height <= old(self).height
                &&& forall|i: int| 0 <= i < old(self).entries().len() ==> disjoint(#[trigger] old(self).entries()[i].1, reg)
                &&& (bm.width > 0 ==> shows_glyph(final(self).texture_data@, old(self).width as int,
                    reg.x + old(self).padding, reg.y + old(self).padding, bm.width as int, bm.coverage@, bm.coverage@.len() as int))
                &&& if has_key(old(self).entries(), k) {
                    final(self).entries() == old(self).entries().remove(key_index(old(self).entries(), k)).push((k, reg))
                } else if old(self).entries().len() == cache_capacity(old(self).glyph_cache) {
                    final(self).entries() == old(self).entries().drop_first().push((k, reg))
                } else {
                    final(self).entries() == old(self).entries().push((k, reg))
                }
            },
            r is Err ==> final(self).entries() == old(self).entries(),
            cache_capacity(final(self).glyph_cache) == cache_capacity(old(self).glyph_cache),
            ({
                let pw = bm.width + 2 * old(self).padding;
                let ph = bm.height + 2 * old(self).padding;
                let place = placement(old(self).shelves@, old(self).current_y as int, old(self).width as int,
                    old(self).height as int, pw, ph);
                &&& pw <= u32::MAX && ph <= u32::MAX ==> (r is Ok <==> place is Some)
                &&& pw <= u32::MAX && ph <= u32::MAX && place is None
                    ==> r == Err::<AtlasRegion, AtlasError>(AtlasError::Full { width: pw as u32, height: ph as u32 })
                &&& r matches Ok(reg) ==> place == Some((reg.x as int, reg.y as int))
            }),
            r is Ok ==> final(self).metrics.evictions == if has_key(old(self).entries(), key.spec_cache_key())
                || old(self).entries().len() == cache_capacity(old(self).glyph_cache) {
                sat_inc(old(self).metrics.evictions)
            } else {
                old(self).metrics.evictions
            },
            r is Err ==> final(self).metrics.evictions == old(self).metrics.evictions,
    {
        self.metrics.rasterizations = self.metrics.rasterizations.saturating_add(1);
        let pad2: u64 = 2 * self.padding as u64;
        if bm.width as u64 + pad2 > u32::MAX as u64 || bm.height as u64 + pad2 > u32::MAX as u64 {
            return Err(AtlasError::TooLarge);
        }
        let pw = (bm.width as u64 + pad2) as u32;
        let ph = (bm.height as u64 + pad2) as u32;
        let ghost pre = self.entries();
        let (x, y) = match self.find_space(pw, ph) {
            Some(p) => p,
            None => {
                return Err(AtlasError::Full { width: pw, height: ph });
            },
        };
        let pad = self.padding;
        self.write_glyph(x + pad, y + pad, bm);
        let reg = AtlasRegion {
            x,
            y,
            width: pw,
            height: ph,
            bearing_x: bm.bearing_x,
            bearing_y: bm.bearing_y,
            advance: bm.advance,
        };
        let ck = key.cache_key();
        let ghost before = self.entries();
        proof {
            let probe = AtlasRegion { x, y, width: pw, height: ph, bearing_x: 0, bearing_y: 0, advance: 0 };
            let m = choose|m: int| 0 <= m < self.shelves@.len() && on_shelf(#[trigger] self.shelves@[m], probe);
            assert(on_shelf(self.shelves@[m], reg));
            assert(before == pre);
            assert forall|i: int| 0 <= i < before.len() implies disjoint(#[trigger] before[i].1, reg) by {
                assert(disjoint(pre[i].1, probe));
            }
        }
        let evicted = cache_push(&mut self.glyph_cache, ck, reg);
        if evicted.is_some() {
            self.metrics.evictions = self.metrics.evictions.saturating_add(1);
        }
        proof {
            lemma_push_keeps_wf(before, self.entries(), ck, reg, self.shelves@, cache_capacity(self.glyph_cache));
        }
        let count = cache_len(&self.glyph_cache);
        self.metrics.total_allocations = count;
        self.metrics.memory_used = self.texture_data.len() + count * CACHE_ENTRY_BYTES;
        self.metrics.used_rows = self.current_y;
        Ok(reg)
    }

    /// The counters.
    pub fn metrics(&self) -> (m: &AtlasMetrics)
        ensures
            *m == self.metrics,
    {
        &self.metrics
    }

    /// The texture bytes, RGBA row by row.
    pub fn texture_data(&self) -> (t: &Vec<u8>)
        ensures
            t@ == self.texture_data@,
    {
        &self.texture_data
    }

    /// Width and height of the texture.
    pub fn dimensions(&self) -> (d: (u32, u32))
        ensures
            d == (self.width, self.height),
    {
        (self.width, self.height)
    }

    /// Empties the atlas: no glyph, no shelf, a blank texture, zeroed
    /// counters.
    pub fn clear(&mut self)
        requires
            old(self).wf(),
        ensures
            final(self).wf(),
            final(self).entries().len() == 0,
            cache_capacity(final(self).glyph_cache) == cache_capacity(old(self).glyph_cache),
            final(self).shelves@.len() == 0,
            final(self).current_y == 0,
            final(self).width == old(self).width && final(self).height == old(self).height,
            final(self).texture_data@.len() == old(self).texture_data@.len(),
            forall|i: int| 0 <= i < final(self).texture_data@.len() ==> #[trigger] final(self).texture_data@[i] == 0,
            final(self).metrics == (AtlasMetrics {
                total_allocations: 0,
                cache_hits: 0,
                cache_misses: 0,
                evictions: 0,
                rasterizations: 0,
                used_rows: 0,
                memory_used: old(self).texture_data@.len() as usize,
            }),
    {
        cache_clear(&mut self.glyph_cache);
        self.shelves = Vec::new();
        self.current_y = 0;
        let n = self.texture_data.len();
        let mut i: usize = 0;
        while i < n
            invariant
                n == self.texture_data@.len(),
                n == self.width * self.height * 4,
                self.width == old(self).width && self.height == old(self).height,
                self.shelves@.len() == 0,
                self.current_y == 0,
                self.entries().len() == 0,
                cache_capacity(self.glyph_cache) == CACHE_CAPACITY,
                self.width * self.height * 4 <= MAX_MEMORY,
                cache_capacity(self.glyph_cache) == cache_capacity(old(self).glyph_cache),
                i <= n,
                forall|k: int| 0 <= k < i ==> #[trigger] self.texture_data@[k] == 0,
            decreases n - i,
        {
            self.texture_data.set(i, 0);
            i = i + 1;
        }
        self.metrics = AtlasMetrics {
            total_allocations: 0,
            cache_hits: 0,
            cache_misses: 0,
            evictions: 0,
            rasterizations: 0,
            used_rows: 0,
            memory_used: n,
        };
    }
}

/// `n + 1`, or `n` at the largest value.
pub open spec fn sat_inc(n: usize) -> usize {
    if n < usize::MAX { (n + 1) as usize } else { n }
}

/// Moving an entry to the back keeps keys unique, regions apart and every
/// region on a shelf.
proof fn lemma_move_to_back_keeps_wf(s: Seq<(CacheKey, AtlasRegion)>, t: Seq<(CacheKey, AtlasRegion)>, i: int)
    requires
        0 <= i < s.len(),
        t == s.remove(i).push(s[i]),
    ensures
        t.len() == s.len(),
        forall|a: int| 0 <= a < t.len() ==> exists|b: int| 0 <= b < s.len() && #[trigger] t[a] == #[trigger] s[b],
{
    assert forall|a: int| 0 <= a < t.len() implies exists|b: int| 0 <= b < s.len() && #[trigger] t[a] == #[trigger] s[b] by {
        if a < i {
            assert(t[a] == s[a]);
        } else if a < t.len() - 1 {
            assert(t[a] == s[a + 1]);
        } else {
            assert(t[a] == s[i]);
        }
    }
}

/// Filing a new region apart from all others keeps keys unique, regions
/// apart and every region on a shelf.
proof fn lemma_push_keeps_wf(
    s: Seq<(CacheKey, AtlasRegion)>,
    t: Seq<(CacheKey, AtlasRegion)>,
    k: CacheKey,
    reg: AtlasRegion,
    sh: Seq<Shelf>,
    cap: nat,
)
    requires
        forall|i: int| 0 <= i < s.len() ==> on_some_shelf(sh, (#[trigger] s[i]).1),
        on_some_shelf(sh, reg),
        forall|i: int, j: int| 0 <= i < j < s.len() ==> (#[trigger] s[i]).0 != (#[trigger] s[j]).0,
        forall|i: int, j: int| 0 <= i < j < s.len() ==> disjoint((#[trigger] s[i]).1, (#[trigger] s[j]).1),
        forall|i: int| 0 <= i < s.len() ==> disjoint(#[trigger] s[i].1, reg),
        s.len() <= cap,
        has_key(s, k) ==> t == s.remove(key_index(s, k)).push((k, reg)),
        !has_key(s, k) && s.len() == cap ==> t == s.drop_first().push((k, reg)),
        !has_key(s, k) && s.len() != cap ==> t == s.push((k, reg)),
        cap > 0,
    ensures
        forall|i: int| 0 <= i < t.len() ==> on_some_shelf(sh, (#[trigger] t[i]).1),
        forall|i: int, j: int| 0 <= i < j < t.len() ==> (#[trigger] t[i]).0 != (#[trigger] t[j]).0,
        forall|i: int, j: int| 0 <= i < j < t.len() ==> disjoint((#[trigger] t[i]).1, (#[trigger] t[j]).1),
        t.len() <= cap,
{
    let n = t.len() - 1;
    let keep = t.subrange(0, n);
    assert(t[n] == (k, reg));
    let (lo, skip): (int, int) = if has_key(s, k) {
        (0, key_index(s, k))
    } else if s.len() == cap {
        (1, -1)
    } else {
        (0, -1)
    };
    assert forall|a: int| 0 <= a < n implies #[trigger] t[a] == s[if lo == 1 { a + 1 } else if skip >= 0 && a >= skip { a + 1 } else { a }] by {}
    assert forall|i: int| 0 <= i < t.len() implies on_some_shelf(sh, (#[trigger] t[i]).1) by {
        if i < n {
            let b = if lo == 1 { i + 1 } else if skip >= 0 && i >= skip { i + 1 } else { i };
            assert(t[i] == s[b]);
        }
    }
    assert forall|i: int, j: int| 0 <= i < j < t.len() implies (#[trigger] t[i]).0 != (#[trigger] t[j]).0 by {
        let bi = if lo == 1 { i + 1 } else if skip >= 0 && i >= skip { i + 1 } else { i };
        assert(t[i] == s[bi]);
        if j < n {
            let bj = if lo == 1 { j + 1 } else if skip >= 0 && j >= skip { j + 1 } else { j };
            assert(t[j] == s[bj]);
        } else {
            if s[bi].0 == k {
                assert(has_key(s, k));
                assert(s[key_index(s, k)].0 == k);
                if bi != skip {
                    if bi < skip {
                        assert(s[bi].0 != s[skip].0);
                    } else {
                        assert(s[skip].0 != s[bi].0);
                    }
                }
            }
        }
    }
    assert forall|i: int, j: int| 0 <= i < j < t.len() implies disjoint((#[trigger] t[i]).1, (#[trigger] t[j]).1) by {
        let bi = if lo == 1 { i + 1 } else if skip >= 0 && i >= skip { i + 1 } else { i };
        assert(t[i] == s[bi]);
        if j < n {
            let bj = if lo == 1 { j + 1 } else if skip >= 0 && j >= skip { j + 1 } else { j };
            assert(t[j] == s[bj]);
        }
    }
}

/// Live regions do not overlap: any two glyphs the cache holds have
/// different keys and rectangles that share no pixel.
pub proof fn lemma_live_regions_disjoint(a: &GlyphAtlas, i: int, j: int)
    requires
        a.wf(),
        0 <= i < a.entries().len(),
        0 <= j < a.entries().len(),
        i != j,
    ensures
        a.entries()[i].0 != a.entries()[j].0,
        disjoint(a.entries()[i].1, a.entries()[j].1),
{
    if j < i {
        assert(disjoint(a.entries()[j].1, a.entries()[i].1));
    }
}

/// Filing a new key in a full cache evicts exactly the least recently used
/// entry: afterwards that key is gone, the new key is there, and every other
/// entry is still there with its region, in the same order.
pub proof fn lemma_full_insert_evicts_lru(
    s: Seq<(CacheKey, AtlasRegion)>,
    t: Seq<(CacheKey, AtlasRegion)>,
    k: CacheKey,
    reg: AtlasRegion,
)
    requires
        s.len() > 0,
        forall|i: int, j: int| 0 <= i < j < s.len() ==> (#[trigger] s[i]).0 != (#[trigger] s[j]).0,
        !has_key(s, k),
        t == s.drop_first().push((k, reg)),
    ensures
        !has_key(t, s[0].0),
        has_key(t, k),
        forall|i: int| 1 <= i < s.len() ==> #[trigger] t[i - 1] == s[i],
        t.len() == s.len(),
{
    assert(t[t.len() - 1] == (k, reg));
    if has_key(t, s[0].0) {
        let i = choose|i: int| 0 <= i < t.len() && (#[trigger] t[i]).0 == s[0].0;
        if i < t.len() - 1 {
            assert(t[i] == s[i + 1]);
        } else {
            assert(has_key(s, k));
        }
    }
}

/// The cache never holds more glyphs than its capacity.
pub proof fn lemma_cache_bounded(a: &GlyphAtlas)
    requires
        a.wf(),
    ensures
        a.entries().len() <= cache_capacity(a.glyph_cache),
{
}

/// A shelf that fits within the first `k + 1` shelves is the first fit of
/// all.
proof fn lemma_first_fit_prefix(sh: Seq<Shelf>, w: int, h: int, k: int)
    requires
        0 <= k < sh.len(),
        first_fit(sh.subrange(0, k), w, h) == k,
        sh[k].used_width + w <= sh[k].width,
        h <= sh[k].height,
    ensures
        first_fit(sh, w, h) == k,
    decreases sh.len(),
{
    if sh.len() > k + 1 {
        let d = sh.drop_last();
        assert(d.subrange(0, k) =~= sh.subrange(0, k));
        lemma_first_fit_prefix(d, w, h, k);
    } else {
        assert(sh.drop_last() =~= sh.subrange(0, k));
    }
}

/// The first fit, when there is one, has room.
proof fn lemma_first_fit_fits(sh: Seq<Shelf>, w: int, h: int)
    ensures
        0 <= first_fit(sh, w, h) <= sh.len(),
        first_fit(sh, w, h) < sh.len() ==> sh[first_fit(sh, w, h)].used_width + w <= sh[first_fit(sh, w, h)].width
            && h <= sh[first_fit(sh, w, h)].height,
    decreases sh.len(),
{
    if sh.len() > 0 {
        let d = sh.drop_last();
        lemma_first_fit_fits(d, w, h);
        let k = first_fit(d, w, h);
        if k < d.len() {
            assert(sh[k] == d[k]);
        }
    }
}

} // verus!
