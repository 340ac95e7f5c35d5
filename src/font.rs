//! Font families: the keys fonts are cached under, the built-in fallback
//! chain, and the choice of a fallback font for a code point.

use vstd::prelude::*;

verus! {

/// Slant of a face.
#[derive(Debug, Clone, Copy, PartialEq, Eq, Hash, Structural)]
pub enum FontStyle {
    /// Upright.
    Normal,
    /// Italic.
    Italic,
    /// Slanted.
    Oblique,
}

/// Weight of a face.
#[derive(Debug, Clone, Copy, PartialEq, Eq, Hash, Structural)]
pub enum FontWeight {
    /// Regular.
    Normal,
    /// Bold.
    Bold,
    /// Light.
    Light,
    /// Extra bold.
    ExtraBold,
}

/// A font family with its face and, when known, its file.
#[derive(Debug, Clone)]
pub struct FontInfo {
    /// Family name.
    pub family: String,
    /// Slant.
    pub style: FontStyle,
    /// Weight.
    pub weight: FontWeight,
    /// Path of the font file.
    pub path: Option<String>,
}

/// The key a loaded font is cached under: family, size in 1/64 px, face.
#[derive(Debug, Clone)]
pub struct FontKey {
    /// Family name.
    pub family: String,
    /// Size in 1/64 px.
    pub size: u32,
    /// Slant.
    pub style: FontStyle,
    /// Weight.
    pub weight: FontWeight,
}

impl FontKey {
    /// The key of a regular upright face of `family` at `size` 1/64 px.
    pub fn new(family: String, size: u32) -> (k: FontKey)
        ensures
            k == (FontKey { family, size, style: FontStyle::Normal, weight: FontWeight::Normal }),
    {
        FontKey { family, size, style: FontStyle::Normal, weight: FontWeight::Normal }
    }
}

impl FontInfo {
    /// A regular upright face of `family`, file unknown.
    pub fn regular(family: String) -> (f: FontInfo)
        ensures
            f == (FontInfo { family, style: FontStyle::Normal, weight: FontWeight::Normal, path: None }),
    {
        FontInfo { family, style: FontStyle::Normal, weight: FontWeight::Normal, path: None }
    }
}

/// The built-in fallback families, in the order they are tried:
/// monospace developer fonts, then CJK, Arabic, Hebrew, Devanagari and
/// emoji fonts, then Courier New.
pub open spec fn fallback_families() -> Seq<Seq<char>> {
    seq![
        "JetBrains Mono"@,
        "Fira Code"@,
        "Source Code Pro"@,
        "Consolas"@,
        "Monaco"@,
        "Menlo"@,
        "DejaVu Sans Mono"@,
        "Liberation Mono"@,
        "Noto Sans Mono"@,
        "Noto Sans Mono CJK SC"@,
        "Noto Sans Mono CJK JP"@,
        "Noto Sans Mono CJK KR"@,
        "Noto Sans Arabic"@,
        "Noto Sans Hebrew"@,
        "Noto Sans Devanagari"@,
        "Noto Color Emoji"@,
        "Apple Color Emoji"@,
        "Segoe UI Emoji"@,
        "Courier New"@
    ]
}

/// The built-in fallback chain: regular upright faces of the fallback
/// families, in order.
pub fn build_fallback_chain() -> (v: Vec<FontInfo>)
    ensures
        v@.len() == fallback_families().len(),
        forall|i: int| 0 <= i < v@.len() ==> (#[trigger] v@[i]).family@ == fallback_families()[i]
            && v@[i].style == FontStyle::Normal && v@[i].weight == FontWeight::Normal && v@[i].path is None,
{
    let mut v: Vec<FontInfo> = Vec::new();
    v.push(FontInfo::regular("JetBrains Mono".to_owned()));
    v.push(FontInfo::regular("Fira Code".to_owned()));
    v.push(FontInfo::regular("Source Code Pro".to_owned()));
    v.push(FontInfo::regular("Consolas".to_owned()));
    v.push(FontInfo::regular("Monaco".to_owned()));
    v.push(FontInfo::regular("Menlo".to_owned()));
    v.push(FontInfo::regular("DejaVu Sans Mono".to_owned()));
    v.push(FontInfo::regular("Liberation Mono".to_owned()));
    v.push(FontInfo::regular("Noto Sans Mono".to_owned()));
    v.push(FontInfo::regular("Noto Sans Mono CJK SC".to_owned()));
    v.push(FontInfo::regular("Noto Sans Mono CJK JP".to_owned()));
    v.push(FontInfo::regular("Noto Sans Mono CJK KR".to_owned()));
    v.push(FontInfo::regular("Noto Sans Arabic".to_owned()));
    v.push(FontInfo::regular("Noto Sans Hebrew".to_owned()));
    v.push(FontInfo::regular("Noto Sans Devanagari".to_owned()));
    v.push(FontInfo::regular("Noto Color Emoji".to_owned()));
    v.push(FontInfo::regular("Apple Color Emoji".to_owned()));
    v.push(FontInfo::regular("Segoe UI Emoji".to_owned()));
    v.push(FontInfo::regular("Courier New".to_owned()));
    v
}

/// The first font of a chain that covers a code point: `glyphs[i]` is the
/// glyph id that font `i` gives it, or `None` when that font could not be
/// loaded; glyph 0 means the glyph is missing.
pub fn first_covering_font(glyphs: &Vec<Option<u32>>) -> (r: Option<usize>)
    ensures
        r matches Some(i) ==> i < glyphs@.len() && (glyphs@[i as int] matches Some(g) && g != 0)
            && forall|j: int| 0 <= j < i ==> !(#[trigger] glyphs@[j] matches Some(g) && g != 0),
        r is None ==> forall|j: int| 0 <= j < glyphs@.len() ==> !(#[trigger] glyphs@[j] matches Some(g) && g != 0),
{
    let mut i: usize = 0;
    while i < glyphs.len()
        invariant
            i <= glyphs@.len(),
            forall|j: int| 0 <= j < i ==> !(#[trigger] glyphs@[j] matches Some(g) && g != 0),
        decreases glyphs@.len() - i,
    {
        match glyphs[i] {
            Some(g) => {
                if g != 0 {
                    return Some(i);
                }
            },
            None => {},
        }
        i = i + 1;
    }
    None
}

} // verus!
