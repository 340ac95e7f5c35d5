//! Programming ligatures: ASCII operator sequences replaced by their
//! Unicode forms before shaping, when the `liga` or `calt` feature is on.

use unicode_normalization::UnicodeNormalization;
use unicode_script::UnicodeScript;
use vstd::prelude::*;
use crate::text::{chars_of, same_text, string_of};

verus! {

/// The direction glyphs of a run advance in.
#[derive(Debug, Clone, Copy, PartialEq, Eq, Hash, Structural)]
pub enum Direction {
    /// Left to right.
    LeftToRight,
    /// Right to left (Arabic, Hebrew).
    RightToLeft,
    /// Top to bottom.
    TopToBottom,
    /// Bottom to top.
    BottomToTop,
}

impl Direction {
    /// The direction's short tag, as shaping caches key it.
    pub fn tag(&self) -> (r: String)
        ensures
            r@ == match *self {
                Direction::LeftToRight => "ltr"@,
                Direction::RightToLeft => "rtl"@,
                Direction::TopToBottom => "ttb"@,
                Direction::BottomToTop => "btt"@,
            },
    {
        match self {
            Direction::LeftToRight => "ltr".to_owned(),
            Direction::RightToLeft => "rtl".to_owned(),
            Direction::TopToBottom => "ttb".to_owned(),
            Direction::BottomToTop => "btt".to_owned(),
        }
    }
}

/// `s` with every occurrence of `from`, left to right and not
/// overlapping, replaced by `to`.
pub open spec fn replace_all(s: Seq<char>, from: Seq<char>, to: Seq<char>) -> Seq<char>
    decreases s.len(),
{
    if from.len() == 0 || s.len() == 0 {
        s
    } else if from.len() <= s.len() && s.subrange(0, from.len() as int) == from {
        to + replace_all(s.subrange(from.len() as int, s.len() as int), from, to)
    } else {
        seq![s[0]] + replace_all(s.subrange(1, s.len() as int), from, to)
    }
}

/// `s` with every occurrence of `from` replaced by `to`.
fn replace_chars(s: &Vec<char>, from: &Vec<char>, to: &Vec<char>) -> (r: Vec<char>)
    requires
        from@.len() > 0,
    ensures
        r@ == replace_all(s@, from@, to@),
{
    let mut out: Vec<char> = Vec::new();
    let mut i: usize = 0;
    let n = s.len();
    let m = from.len();
    proof {
        assert(s@.subrange(0, n as int) =~= s@);
    }
    while i < n
        invariant
            n == s@.len(),
            m == from@.len(),
            m > 0,
            i <= n,
            out@ + replace_all(s@.subrange(i as int, n as int), from@, to@) == replace_all(s@, from@, to@),
        decreases n - i,
    {
        let ghost rest = s@.subrange(i as int, n as int);
        let mut matched = m <= n - i;
        let mut j: usize = 0;
        while matched && j < m
            invariant
                n == s@.len(),
                m == from@.len(),
                i < n,
                j <= m,
                matched ==> i + m <= n,
                matched ==> forall|k: int| 0 <= k < j ==> s@[i + k] == from@[k],
                !matched ==> !(m <= n - i && rest.subrange(0, m as int) == from@),
                rest == s@.subrange(i as int, n as int),
            decreases m - j,
        {
            if s[i + j] != from[j] {
                assert(rest.subrange(0, m as int)[j as int] == s@[i + j]);
                matched = false;
            }
            j = j + 1;
        }
        if matched {
            assert(rest.subrange(0, m as int) =~= from@);
            let mut k: usize = 0;
            let ghost base = out@;
            while k < to.len()
                invariant
                    k <= to@.len(),
                    out@ == base + to@.subrange(0, k as int),
                decreases to@.len() - k,
            {
                out.push(to[k]);
                k = k + 1;
                assert(out@ =~= base + to@.subrange(0, k as int));
            }
            assert(to@.subrange(0, to@.len() as int) =~= to@);
            assert(rest.subrange(m as int, rest.len() as int) =~= s@.subrange(i + m, n as int));
            assert(out@ + replace_all(s@.subrange(i + m, n as int), from@, to@) =~= base + replace_all(rest, from@, to@));
            i = i + m;
        } else {
            let ghost base = out@;
            out.push(s[i]);
            assert(rest.subrange(1, rest.len() as int) =~= s@.subrange(i + 1, n as int));
            assert(rest[0] == s@[i as int]);
            assert(out@ + replace_all(s@.subrange(i + 1, n as int), from@, to@) =~= base + replace_all(rest, from@, to@));
            i = i + 1;
        }
    }
    assert(s@.subrange(n as int, n as int) =~= Seq::<char>::empty());
    assert(out@ + Seq::<char>::empty() =~= out@);
    out
}

/// The ligature table, applied in this order.
pub open spec fn ligature_pairs() -> Seq<(Seq<char>, Seq<char>)> {
    seq![
        ("->"@, "\u{2192}"@),
        ("=>"@, "\u{21D2}"@),
        ("<="@, "\u{2264}"@),
        (">="@, "\u{2265}"@),
        ("!="@, "\u{2260}"@),
        ("=="@, "\u{2261}"@),
        ("==="@, "\u{2261}"@),
        ("!=="@, "\u{2262}"@),
        ("&&"@, "\u{2227}"@),
        ("||"@, "\u{2228}"@),
        (".."@, "\u{2025}"@),
        ("..."@, "\u{2026}"@),
    ]
}

/// `s` after the first `n` replacements of the table, in order.
pub open spec fn ligated(s: Seq<char>, n: int) -> Seq<char>
    decreases n,
{
    if n <= 0 {
        s
    } else {
        replace_all(ligated(s, n - 1), ligature_pairs()[n - 1].0, ligature_pairs()[n - 1].1)
    }
}

/// Whether `features` turns programming ligatures on.
pub open spec fn ligatures_on(features: Seq<String>) -> bool {
    exists|i: int| 0 <= i < features.len() && ((#[trigger] features[i])@ == "liga"@ || features[i]@ == "calt"@)
}

/// `text` with each ligature of the table applied in order, when
/// `features` holds `liga` or `calt`; `text` unchanged otherwise.
pub fn process_ligatures(text: &str, features: &Vec<String>) -> (r: String)
    ensures
        ligatures_on(features@) ==> r@ == ligated(text@, 12),
        !ligatures_on(features@) ==> r@ == text@,
{
    let mut on = false;
    let mut i: usize = 0;
    while i < features.len()
        invariant
            i <= features@.len(),
            on == exists|k: int| 0 <= k < i && ((#[trigger] features@[k])@ == "liga"@ || features@[k]@ == "calt"@),
        decreases features@.len() - i,
    {
        if same_text(features[i].as_str(), "liga") || same_text(features[i].as_str(), "calt") {
            on = true;
        }
        i = i + 1;
    }
    let mut s = chars_of(text);
    if !on {
        return string_of(&s);
    }
    proof {
        reveal_strlit("->");
        reveal_strlit("=>");
        reveal_strlit("<=");
        reveal_strlit(">=");
        reveal_strlit("!=");
        reveal_strlit("==");
        reveal_strlit("===");
        reveal_strlit("!==");
        reveal_strlit("&&");
        reveal_strlit("||");
        reveal_strlit("..");
        reveal_strlit("...");
        reveal_with_fuel(ligated, 13);
    }
    s = replace_chars(&s, &chars_of("->"), &chars_of("\u{2192}"));
    s = replace_chars(&s, &chars_of("=>"), &chars_of("\u{21D2}"));
    s = replace_chars(&s, &chars_of("<="), &chars_of("\u{2264}"));
    s = replace_chars(&s, &chars_of(">="), &chars_of("\u{2265}"));
    s = replace_chars(&s, &chars_of("!="), &chars_of("\u{2260}"));
    s = replace_chars(&s, &chars_of("=="), &chars_of("\u{2261}"));
    s = replace_chars(&s, &chars_of("==="), &chars_of("\u{2261}"));
    s = replace_chars(&s, &chars_of("!=="), &chars_of("\u{2262}"));
    s = replace_chars(&s, &chars_of("&&"), &chars_of("\u{2227}"));
    s = replace_chars(&s, &chars_of("||"), &chars_of("\u{2228}"));
    s = replace_chars(&s, &chars_of(".."), &chars_of("\u{2025}"));
    s = replace_chars(&s, &chars_of("..."), &chars_of("\u{2026}"));
    string_of(&s)
}

/// The NFC form of `s`, as `unicode-normalization` computes it.
pub uninterp spec fn nfc_of(s: Seq<char>) -> Seq<char>;

/// Relies on `UnicodeNormalization::nfc`: the canonical composition of
/// `s`, which depends on `s` alone.
#[verifier::external_body]
fn nfc(s: &str) -> (r: String)
    ensures
        r@ == nfc_of(s@),
{
    s.nfc().collect()
}

/// The code of the Unicode script of `c`, as `unicode-script` numbers its
/// `Script` values.
pub uninterp spec fn script_of(c: char) -> u8;

/// Relies on `UnicodeScript::script`: the script of `c`, as the numeric
/// value of the `Script` variant, which depends on `c` alone.
#[verifier::external_body]
fn script_code(c: char) -> (r: u8)
    ensures
        r == script_of(c),
{
    c.script() as u8
}

/// Code of the Common script.
pub const SCRIPT_COMMON: u8 = 0xFE;

/// Code of the Inherited script.
pub const SCRIPT_INHERITED: u8 = 0xFD;

/// Code of the Arabic script.
pub const SCRIPT_ARABIC: u8 = 3;

/// Code of the Hebrew script.
pub const SCRIPT_HEBREW: u8 = 53;

/// Code of the Latin script.
pub const SCRIPT_LATIN: u8 = 73;

/// The script of a run: that of its first character whose script is
/// neither Common nor Inherited; Latin when there is none.
pub open spec fn run_script(s: Seq<char>) -> u8
    decreases s.len(),
{
    if s.len() == 0 {
        SCRIPT_LATIN
    } else if script_of(s[0]) != SCRIPT_COMMON && script_of(s[0]) != SCRIPT_INHERITED {
        script_of(s[0])
    } else {
        run_script(s.subrange(1, s.len() as int))
    }
}

/// The direction of a run: right to left when any character is Arabic or
/// Hebrew, else left to right.
pub open spec fn run_direction(s: Seq<char>) -> Direction {
    if exists|i: int| 0 <= i < s.len() && (script_of(#[trigger] s[i]) == SCRIPT_ARABIC || script_of(s[i]) == SCRIPT_HEBREW) {
        Direction::RightToLeft
    } else {
        Direction::LeftToRight
    }
}

/// Whether `c` is a combining mark that joins the glyph before it: of the
/// Common or Inherited script and in U+0300 to U+036F (where no control
/// character lies).
pub open spec fn combining(c: char) -> bool {
    (script_of(c) == SCRIPT_COMMON || script_of(c) == SCRIPT_INHERITED) && 0x300 <= c as u32 <= 0x36F
}

/// Bytes of `c` in UTF-8.
pub open spec fn utf8_len(c: char) -> nat {
    if (c as u32) < 0x80 { 1 } else if (c as u32) < 0x800 { 2 } else if (c as u32) < 0x10000 { 3 } else { 4 }
}

/// A positioned glyph; lengths in 1/64 px.
#[derive(Debug, Clone, Copy, PartialEq, Eq, Structural)]
pub struct GlyphInfo {
    /// Glyph in the font.
    pub glyph_id: u32,
    /// Horizontal advance.
    pub x_advance: i32,
    /// Vertical advance.
    pub y_advance: i32,
    /// Horizontal offset.
    pub x_offset: i32,
    /// Vertical offset.
    pub y_offset: i32,
    /// Byte offset of the glyph's cluster in the text.
    pub cluster: u32,
}

/// The glyph for font metrics `m` (glyph id, advance) in direction `d`.
pub open spec fn placed(m: (u32, i32), d: Direction, size: i32, cluster: nat) -> GlyphInfo {
    GlyphInfo {
        glyph_id: m.0,
        x_advance: match d {
            Direction::LeftToRight => m.1,
            Direction::RightToLeft => if m.1 == i32::MIN { i32::MAX } else { (-m.1) as i32 },
            _ => 0,
        },
        y_advance: match d {
            Direction::TopToBottom => size,
            Direction::BottomToTop => if size == i32::MIN { i32::MAX } else { (-size) as i32 },
            _ => 0,
        },
        x_offset: 0,
        y_offset: 0,
        cluster: if cluster <= u32::MAX { cluster as u32 } else { u32::MAX },
    }
}

/// The glyphs of characters `cs` from index `i` on, the cluster of the next
/// glyph starting at byte `cluster`: a combining mark after the first
/// character joins the glyph before it; every other character gives one.
pub open spec fn glyphs_from(cs: Seq<char>, ms: Seq<(u32, i32)>, d: Direction, size: i32, i: int, cluster: nat) -> Seq<GlyphInfo>
    decreases cs.len() - i,
{
    if i < 0 || i >= cs.len() {
        Seq::empty()
    } else if i > 0 && combining(cs[i]) {
        glyphs_from(cs, ms, d, size, i + 1, cluster)
    } else {
        seq![placed(ms[i], d, size, cluster)] + glyphs_from(cs, ms, d, size, i + 1,
            if combining(cs[i]) { cluster } else { cluster + utf8_len(cs[i]) })
    }
}

/// The glyphs of a run, in visual order: reversed for right to left.
pub open spec fn shaped(cs: Seq<char>, ms: Seq<(u32, i32)>, d: Direction, size: i32) -> Seq<GlyphInfo> {
    if d == Direction::RightToLeft {
        glyphs_from(cs, ms, d, size, 0, 0).reverse()
    } else {
        glyphs_from(cs, ms, d, size, 0, 0)
    }
}

/// The text as the shaper sees it: its NFC form.
pub fn normalize(text: &str) -> (r: Vec<char>)
    ensures
        r@ == nfc_of(text@),
{
    let n = nfc(text);
    chars_of(n.as_str())
}

/// The script of run `s`.
pub fn detect_script(s: &Vec<char>) -> (r: u8)
    ensures
        r == run_script(s@),
{
    let mut i: usize = 0;
    proof {
        assert(s@.subrange(0, s@.len() as int) =~= s@);
    }
    while i < s.len()
        invariant
            i <= s@.len(),
            run_script(s@.subrange(i as int, s@.len() as int)) == run_script(s@),
        decreases s@.len() - i,
    {
        let sc = script_code(s[i]);
        let ghost t = s@.subrange(i as int, s@.len() as int);
        assert(t[0] == s@[i as int]);
        if sc != SCRIPT_COMMON && sc != SCRIPT_INHERITED {
            return sc;
        }
        assert(t.subrange(1, t.len() as int) =~= s@.subrange(i + 1, s@.len() as int));
        i = i + 1;
    }
    SCRIPT_LATIN
}

/// The direction of run `s`.
pub fn detect_direction(s: &Vec<char>) -> (r: Direction)
    ensures
        r == run_direction(s@),
{
    let mut i: usize = 0;
    while i < s.len()
        invariant
            i <= s@.len(),
            forall|k: int| 0 <= k < i ==> !(script_of(#[trigger] s@[k]) == SCRIPT_ARABIC || script_of(s@[k]) == SCRIPT_HEBREW),
        decreases s@.len() - i,
    {
        let sc = script_code(s[i]);
        if sc == SCRIPT_ARABIC || sc == SCRIPT_HEBREW {
            return Direction::RightToLeft;
        }
        i = i + 1;
    }
    Direction::LeftToRight
}

/// Whether `c` joins the glyph before it.
fn is_combining_mark(c: char) -> (r: bool)
    ensures
        r == combining(c),
{
    let sc = script_code(c);
    (sc == SCRIPT_COMMON || sc == SCRIPT_INHERITED) && 0x300 <= c as u32 && c as u32 <= 0x36F
}

/// Places the glyphs of characters `cs`, whose font metrics (glyph id,
/// advance in 1/64 px) are `ms`, in direction `d` at `size` 1/64 px:
/// clusters are byte offsets, combining marks join the glyph before them,
/// and a right-to-left run comes out reversed.
pub fn shape_chars(cs: &Vec<char>, ms: &Vec<(u32, i32)>, d: Direction, size: i32) -> (r: Vec<GlyphInfo>)
    requires
        ms@.len() == cs@.len(),
        cs@.len() <= isize::MAX / 4,
    ensures
        r@ == shaped(cs@, ms@, d, size),
{
    let mut out: Vec<GlyphInfo> = Vec::new();
    let mut cluster: u64 = 0;
    let mut i: usize = 0;
    while i < cs.len()
        invariant
            ms@.len() == cs@.len(),
            cs@.len() <= isize::MAX / 4,
            i <= cs@.len(),
            cluster <= 4 * i,
            out@ + glyphs_from(cs@, ms@, d, size, i as int, cluster as nat) == glyphs_from(cs@, ms@, d, size, 0, 0),
        decreases cs@.len() - i,
    {
        let c = cs[i];
        let mark = is_combining_mark(c);
        if i > 0 && mark {
            i = i + 1;
        } else {
            let (g, adv) = ms[i];
            let x_advance: i32 = match d {
                Direction::LeftToRight => adv,
                Direction::RightToLeft => if adv == i32::MIN { i32::MAX } else { -adv },
                _ => 0,
            };
            let y_advance: i32 = match d {
                Direction::TopToBottom => size,
                Direction::BottomToTop => if size == i32::MIN { i32::MAX } else { -size },
                _ => 0,
            };
            let cl: u32 = if cluster <= u32::MAX as u64 { cluster as u32 } else { u32::MAX };
            let ghost before = out@;
            out.push(GlyphInfo { glyph_id: g, x_advance, y_advance, x_offset: 0, y_offset: 0, cluster: cl });
            assert(out@ == before + seq![placed(ms@[i as int], d, size, cluster as nat)]);
            if !mark {
                let v = c as u32;
                let bytes: u64 = if v < 0x80 { 1 } else if v < 0x800 { 2 } else if v < 0x10000 { 3 } else { 4 };
                cluster = cluster + bytes;
            }
            i = i + 1;
        }
    }
    if d == Direction::RightToLeft {
        let ghost fwd = out@;
        let n = out.len();
        let mut rev: Vec<GlyphInfo> = Vec::new();
        let mut k: usize = 0;
        while k < n
            invariant
                n == fwd.len(),
                out@ == fwd,
                k <= n,
                rev@ == Seq::new(k as nat, |j: int| fwd[n - 1 - j]),
            decreases n - k,
        {
            rev.push(out[n - 1 - k]);
            k = k + 1;
            assert(rev@ =~= Seq::new(k as nat, |j: int| fwd[n - 1 - j]));
        }
        proof {
            assert(glyphs_from(cs@, ms@, d, size, cs@.len() as int, cluster as nat) =~= Seq::<GlyphInfo>::empty());
            assert(fwd + Seq::<GlyphInfo>::empty() =~= fwd);
            assert(rev@ =~= fwd.reverse());
        }
        rev
    } else {
        proof {
            assert(glyphs_from(cs@, ms@, d, size, cs@.len() as int, cluster as nat) =~= Seq::<GlyphInfo>::empty());
            assert(out@ + Seq::<GlyphInfo>::empty() =~= out@);
        }
        out
    }
}

/// What a shaping result is cached under: the NFC text, the features,
/// the script and the direction.
#[derive(Debug, Clone)]
pub struct ShapingKey {
    /// The normalized text.
    pub text: String,
    /// The requested features.
    pub features: Vec<String>,
    /// The run's script code.
    pub script: u8,
    /// The run's direction.
    pub direction: Direction,
}

/// The characters of each string.
pub open spec fn strings_chars(v: Seq<String>) -> Seq<Seq<char>> {
    v.map_values(|s: String| s@)
}

/// Whether two keys hold the same values.
pub open spec fn same_key(a: ShapingKey, b: ShapingKey) -> bool {
    a.text@ == b.text@ && strings_chars(a.features@) == strings_chars(b.features@) && a.script == b.script
        && a.direction == b.direction
}

/// Whether two lists of strings hold the same strings.
fn same_string_lists(a: &Vec<String>, b: &Vec<String>) -> (r: bool)
    ensures
        r == (strings_chars(a@) == strings_chars(b@)),
{
    if a.len() != b.len() {
        assert(strings_chars(a@).len() != strings_chars(b@).len());
        return false;
    }
    let mut i: usize = 0;
    while i < a.len()
        invariant
            a@.len() == b@.len(),
            i <= a@.len(),
            forall|k: int| 0 <= k < i ==> (#[trigger] a@[k])@ == b@[k]@,
        decreases a@.len() - i,
    {
        if !same_text(a[i].as_str(), b[i].as_str()) {
            assert(strings_chars(a@)[i as int] != strings_chars(b@)[i as int]);
            return false;
        }
        i = i + 1;
    }
    assert(strings_chars(a@) =~= strings_chars(b@));
    true
}

/// Shaping results by key, with the counts of hits and misses.
#[derive(Debug, Clone)]
pub struct ShapingCache {
    /// Keys with their glyphs.
    pub entries: Vec<(ShapingKey, Vec<GlyphInfo>)>,
    /// Lookups that found a result.
    pub hits: usize,
    /// Lookups that did not.
    pub misses: usize,
}

/// Whether `e` holds a result under a key equal to `k`.
pub open spec fn cached(e: Seq<(ShapingKey, Vec<GlyphInfo>)>, k: ShapingKey) -> bool {
    exists|i: int| 0 <= i < e.len() && same_key(#[trigger] e[i].0, k)
}

impl ShapingCache {
    /// An empty cache.
    pub fn new() -> (c: ShapingCache)
        ensures
            c.entries@.len() == 0 && c.hits == 0 && c.misses == 0,
    {
        ShapingCache { entries: Vec::new(), hits: 0, misses: 0 }
    }

    /// The glyphs cached under a key equal to `key`, counting a hit or a miss.
    pub fn lookup(&mut self, key: &ShapingKey) -> (r: Option<Vec<GlyphInfo>>)
        ensures
            final(self).entries@ == old(self).entries@,
            r is Some <==> cached(old(self).entries@, *key),
            r matches Some(g) ==> exists|i: int| 0 <= i < old(self).entries@.len()
                && same_key(#[trigger] old(self).entries@[i].0, *key) && g@ == old(self).entries@[i].1@,
            r is Some ==> final(self).hits == (if old(self).hits < usize::MAX { old(self).hits + 1 } else { old(self).hits as int })
                && final(self).misses == old(self).misses,
            r is None ==> final(self).misses == (if old(self).misses < usize::MAX { old(self).misses + 1 } else { old(self).misses as int })
                && final(self).hits == old(self).hits,
    {
        let mut i: usize = 0;
        while i < self.entries.len()
            invariant
                self.entries@ == old(self).entries@,
                self.hits == old(self).hits && self.misses == old(self).misses,
                i <= self.entries@.len(),
                forall|k: int| 0 <= k < i ==> !same_key(#[trigger] self.entries@[k].0, *key),
            decreases self.entries@.len() - i,
        {
            let e = &self.entries[i].0;
            if same_text(e.text.as_str(), key.text.as_str()) && same_string_lists(&e.features, &key.features)
                && e.script == key.script && e.direction == key.direction {
                let mut g: Vec<GlyphInfo> = Vec::new();
                let src = &self.entries[i].1;
                let mut k: usize = 0;
                while k < src.len()
                    invariant
                        k <= src@.len(),
                        g@ == src@.subrange(0, k as int),
                    decreases src@.len() - k,
                {
                    g.push(src[k]);
                    k = k + 1;
                    assert(g@ =~= src@.subrange(0, k as int));
                }
                assert(src@.subrange(0, src@.len() as int) =~= src@);
                self.hits = self.hits.saturating_add(1);
                return Some(g);
            }
            i = i + 1;
        }
        self.misses = self.misses.saturating_add(1);
        None
    }

    /// Files `glyphs` under `key`.
    pub fn insert(&mut self, key: ShapingKey, glyphs: Vec<GlyphInfo>)
        ensures
            final(self).entries@ == old(self).entries@.push((key, glyphs)),
            final(self).hits == old(self).hits && final(self).misses == old(self).misses,
    {
        self.entries.push((key, glyphs));
    }

    /// Forgets every result and count.
    pub fn clear(&mut self)
        ensures
            final(self).entries@.len() == 0 && final(self).hits == 0 && final(self).misses == 0,
    {
        self.entries = Vec::new();
        self.hits = 0;
        self.misses = 0;
    }

    /// Hits and all lookups, the hit ratio's numerator and denominator.
    pub fn hit_counts(&self) -> (r: (usize, usize))
        ensures
            r.0 == self.hits,
            r.1 == if self.hits + self.misses <= usize::MAX { (self.hits + self.misses) as usize } else { usize::MAX },
    {
        (self.hits, self.hits.saturating_add(self.misses))
    }
}

} // verus!
